//! The BGP process of an internal router as a transition system over mathematical state.
//!
//! Every operation of [`crate::router::Router`] is specified as one of the functions
//! below, applied to the router's view.

use vstd::prelude::*;
use crate::bgp::{BgpEventView, BgpSessionType, RouteView, DEFAULT_LOCAL_PREF};
use crate::event::EventView;
use crate::rib::RibEntryView;
use crate::types::{AsId, DeviceError, IgpCost, Prefix, RouterId};

verus! {

/// Mathematical state of an internal router.
pub struct RouterState {
    pub name: Seq<char>,
    pub router_id: RouterId,
    pub as_id: AsId,
    /// IGP forwarding table: `None` marks a known but unreachable router.
    pub igp: Map<RouterId, Option<(RouterId, IgpCost)>>,
    /// The BGP sessions in the order in which they were established.
    pub sessions: Seq<(RouterId, BgpSessionType)>,
    /// Received entries, one per prefix and neighbor.
    pub rib_in: Map<(Prefix, RouterId), RibEntryView>,
    /// Selected best entry per prefix.
    pub rib: Map<Prefix, RibEntryView>,
    /// Entries last announced, one per prefix and neighbor.
    pub rib_out: Map<(Prefix, RouterId), RibEntryView>,
    /// Every prefix seen so far, in order of first appearance.
    pub known_prefixes: Seq<Prefix>,
    /// Local preference applied to routes received over eBGP, by neighbor.
    pub local_pref_policy: Map<RouterId, u32>,
    /// Pairs `(from, to)`: a route learned from `from` is never exported to `to`.
    pub no_export: Set<(RouterId, RouterId)>,
}

/// What route dissemination does for one neighbor.
pub enum PeerAction {
    /// Nothing is sent.
    Keep,
    /// The entry is recorded as announced and sent as an UPDATE.
    Announce(RibEntryView),
    /// The recorded entry is dropped and a WITHDRAW is sent.
    Retract,
}

/// Result of route dissemination: the new RIB-out, the messages emitted in order, and
/// the error that stopped it, if any.
pub struct Dissemination {
    pub rib_out: Map<(Prefix, RouterId), RibEntryView>,
    pub events: Seq<EventView>,
    pub error: Option<DeviceError>,
}

/// Result of an operation that may emit messages: the state it leaves, the messages
/// appended to the queue in order, and its return value.
pub struct Outcome {
    pub state: RouterState,
    pub events: Seq<EventView>,
    pub result: Result<(), DeviceError>,
}

/// A session list names `peer`.
pub open spec fn listed(sessions: Seq<(RouterId, BgpSessionType)>, peer: RouterId) -> bool {
    exists|i: int| 0 <= i < sessions.len() && (#[trigger] sessions[i]).0 == peer
}

/// A position at which a session list names `peer`.
pub open spec fn position(sessions: Seq<(RouterId, BgpSessionType)>, peer: RouterId) -> int {
    choose|i: int| 0 <= i < sessions.len() && (#[trigger] sessions[i]).0 == peer
}

/// Whether a route learned over a session of kind `from` may be passed on over a
/// session of kind `to`: everything but iBGP peer to iBGP peer.
pub open spec fn export_allowed(from: BgpSessionType, to: BgpSessionType) -> bool {
    !(from == BgpSessionType::IBgpPeer && to == BgpSessionType::IBgpPeer)
}

impl RouterState {
    /// The state of a router right after creation.
    pub open spec fn init(name: Seq<char>, router_id: RouterId, as_id: AsId) -> RouterState {
        RouterState {
            name,
            router_id,
            as_id,
            igp: Map::empty(),
            sessions: Seq::empty(),
            rib_in: Map::empty(),
            rib: Map::empty(),
            rib_out: Map::empty(),
            known_prefixes: Seq::empty(),
            local_pref_policy: Map::empty(),
            no_export: Set::empty(),
        }
    }

    /// Some session with `peer` is established.
    pub open spec fn has_session(self, peer: RouterId) -> bool {
        listed(self.sessions, peer)
    }

    /// Position of the session with `peer` in the session list.
    pub open spec fn session_index(self, peer: RouterId) -> int {
        position(self.sessions, peer)
    }

    /// The kind of session established with `peer`, if any.
    pub open spec fn session_type(self, peer: RouterId) -> Option<BgpSessionType> {
        if self.has_session(peer) {
            Some(self.sessions[self.session_index(peer)].1)
        } else {
            None
        }
    }

    /// The sessions name each neighbor once.
    pub open spec fn sessions_unique(self) -> bool {
        forall|i: int, j: int|
            0 <= i < j < self.sessions.len() ==> (#[trigger] self.sessions[i]).0 != (
            #[trigger] self.sessions[j]).0
    }

    /// The invariant of a router.
    ///
    /// There is at most one session per neighbor and every known prefix is listed
    /// once. RIB-in and RIB-out are keyed within the known prefixes and the current
    /// sessions, the selected routes within the known prefixes, a RIB-in entry records
    /// its own key and the kind of the session it arrived on, and a selected entry
    /// carries an IGP cost.
    pub open spec fn wf(self) -> bool {
        &&& self.sessions_unique()
        &&& self.known_prefixes.no_duplicates()
        &&& forall|k: (Prefix, RouterId)| #[trigger]
            self.rib_in.contains_key(k) ==> {
                &&& self.known_prefixes.contains(k.0)
                &&& self.session_type(k.1) == Some(self.rib_in[k].from_type)
                &&& self.rib_in[k].from_id == k.1
                &&& self.rib_in[k].route.prefix == k.0
            }
        &&& forall|k: (Prefix, RouterId)| #[trigger]
            self.rib_out.contains_key(k) ==> {
                &&& self.known_prefixes.contains(k.0)
                &&& self.has_session(k.1)
            }
        &&& forall|p: Prefix| #[trigger]
            self.rib.contains_key(p) ==> self.known_prefixes.contains(p)
                && self.rib[p].igp_cost is Some
    }

    // ----- session management -----

    /// Establishing a session of kind `kind` with `peer`.
    pub open spec fn establish_session(self, peer: RouterId, kind: BgpSessionType) -> Result<
        RouterState,
        DeviceError,
    > {
        if self.has_session(peer) {
            Err(DeviceError::SessionAlreadyExists(peer))
        } else {
            Ok(RouterState { sessions: self.sessions.push((peer, kind)), ..self })
        }
    }

    /// Closing the session with `peer`: the session is removed and every RIB-in and
    /// RIB-out entry of that neighbor is purged. The selected routes stay as they are.
    pub open spec fn close_session(self, peer: RouterId) -> Result<RouterState, DeviceError> {
        if !self.has_session(peer) {
            Err(DeviceError::NoBgpSession(peer))
        } else {
            Ok(
                RouterState {
                    sessions: self.sessions.remove(self.session_index(peer)),
                    rib_in: purge_neighbor(self.rib_in, peer),
                    rib_out: purge_neighbor(self.rib_out, peer),
                    ..self
                },
            )
        }
    }

    // ----- phase 1: ingestion -----

    /// An UPDATE from `from` is stored in RIB-in, unprocessed.
    pub open spec fn insert_route(self, route: RouteView, from: RouterId) -> Result<
        RouterState,
        DeviceError,
    > {
        match self.session_type(from) {
            None => Err(DeviceError::NoBgpSession(from)),
            Some(kind) => Ok(
                RouterState {
                    rib_in: self.rib_in.insert(
                        (route.prefix, from),
                        RibEntryView { route, from_type: kind, from_id: from, igp_cost: None },
                    ),
                    ..self
                },
            ),
        }
    }

    /// A WITHDRAW from `from` removes the entry from RIB-in, if there is one.
    pub open spec fn remove_route(self, prefix: Prefix, from: RouterId) -> RouterState {
        RouterState { rib_in: self.rib_in.remove((prefix, from)), ..self }
    }

    /// The prefix is recorded as known.
    pub open spec fn learn_prefix(self, prefix: Prefix) -> RouterState {
        if self.known_prefixes.contains(prefix) {
            self
        } else {
            RouterState { known_prefixes: self.known_prefixes.push(prefix), ..self }
        }
    }

    // ----- phase 2: decision -----

    /// The processed form of a RIB-in entry.
    ///
    /// Over eBGP the local preference comes from the policy for the neighbor (else the
    /// default), the IGP cost is 0 and the next hop becomes the neighbor. Over iBGP the
    /// advertised attributes are kept and the IGP cost to the next hop is looked up.
    pub open spec fn process_in(self, e: RibEntryView) -> Result<RibEntryView, DeviceError> {
        if e.from_type.is_ebgp() {
            Ok(
                RibEntryView {
                    route: RouteView {
                        local_pref: Some(
                            if self.local_pref_policy.contains_key(e.from_id) {
                                self.local_pref_policy[e.from_id]
                            } else {
                                DEFAULT_LOCAL_PREF
                            },
                        ),
                        med: Some(e.route.med_or_default()),
                        next_hop: e.from_id,
                        ..e.route
                    },
                    igp_cost: Some(0),
                    ..e
                },
            )
        } else if !self.igp.contains_key(e.route.next_hop) {
            Err(DeviceError::RouterNotFound(e.route.next_hop))
        } else {
            match self.igp[e.route.next_hop] {
                None => Err(DeviceError::RouterNotReachable(e.route.next_hop)),
                Some((_, cost)) => Ok(
                    RibEntryView { route: e.route.with_defaults(), igp_cost: Some(cost), ..e },
                ),
            }
        }
    }

    /// The best processed entry for `prefix` among the first `k` sessions, or the
    /// first error met while processing their entries.
    pub open spec fn best_upto(self, prefix: Prefix, k: int) -> Result<
        Option<RibEntryView>,
        DeviceError,
    >
        decreases k,
    {
        if k <= 0 {
            Ok(None)
        } else {
            match self.best_upto(prefix, k - 1) {
                Err(e) => Err(e),
                Ok(best) => {
                    let key = (prefix, self.sessions[k - 1].0);
                    if !self.rib_in.contains_key(key) {
                        Ok(best)
                    } else {
                        match self.process_in(self.rib_in[key]) {
                            Err(e) => Err(e),
                            Ok(c) => match best {
                                None => Ok(Some(c)),
                                Some(b) => if c.preferred_over(b) {
                                    Ok(Some(c))
                                } else {
                                    Ok(Some(b))
                                },
                            },
                        }
                    }
                },
            }
        }
    }

    /// The winner of the decision process for `prefix`.
    pub open spec fn best_route(self, prefix: Prefix) -> Result<Option<RibEntryView>, DeviceError> {
        self.best_upto(prefix, self.sessions.len() as int)
    }

    /// The decision process for one prefix: the winner becomes the selected entry, as
    /// it was processed now; without a winner the selection is removed.
    pub open spec fn decide(self, prefix: Prefix) -> Result<RouterState, DeviceError> {
        match self.best_route(prefix) {
            Err(e) => Err(e),
            Ok(None) => Ok(RouterState { rib: self.rib.remove(prefix), ..self }),
            Ok(Some(b)) => Ok(RouterState { rib: self.rib.insert(prefix, b), ..self }),
        }
    }

    /// The selected entry of `prefix` is the winner of the decision process, in every
    /// field; there is none where there is no winner.
    pub open spec fn selected_is_best(self, prefix: Prefix) -> bool {
        match self.best_route(prefix) {
            Ok(Some(b)) => self.rib.contains_key(prefix) && self.rib[prefix] == b,
            Ok(None) => !self.rib.contains_key(prefix),
            Err(_) => false,
        }
    }

    /// The decision process for the first `k` known prefixes; it stops at the first error
    /// and keeps what was decided before.
    pub open spec fn decide_upto(self, k: int) -> (RouterState, Result<(), DeviceError>)
        decreases k,
    {
        if k <= 0 {
            (self, Ok(()))
        } else {
            let prev = self.decide_upto(k - 1);
            if prev.1 is Err {
                prev
            } else {
                match prev.0.decide(self.known_prefixes[k - 1]) {
                    Err(e) => (prev.0, Err(e)),
                    Ok(s) => (s, Ok(())),
                }
            }
        }
    }

    /// The decision process for every known prefix.
    pub open spec fn decide_all(self) -> (RouterState, Result<(), DeviceError>) {
        self.decide_upto(self.known_prefixes.len() as int)
    }

    /// The processed entries known for `prefix` among the first `k` sessions, in
    /// session order, or the first error met while processing them.
    pub open spec fn known_routes_upto(self, prefix: Prefix, k: int) -> Result<
        Seq<RibEntryView>,
        DeviceError,
    >
        decreases k,
    {
        if k <= 0 {
            Ok(Seq::empty())
        } else {
            match self.known_routes_upto(prefix, k - 1) {
                Err(e) => Err(e),
                Ok(found) => {
                    let key = (prefix, self.sessions[k - 1].0);
                    if !self.rib_in.contains_key(key) {
                        Ok(found)
                    } else {
                        match self.process_in(self.rib_in[key]) {
                            Err(e) => Err(e),
                            Ok(c) => Ok(found.push(c)),
                        }
                    }
                },
            }
        }
    }

    /// The processed entries known for `prefix`, in session order.
    pub open spec fn known_routes(self, prefix: Prefix) -> Result<Seq<RibEntryView>, DeviceError> {
        self.known_routes_upto(prefix, self.sessions.len() as int)
    }

    // ----- phase 3: dissemination -----

    /// The selected entry as it is announced to `peer`: towards an eBGP neighbor the
    /// next hop becomes this router and the local preference is cleared.
    pub open spec fn export_entry(self, e: RibEntryView, peer: RouterId) -> RibEntryView {
        let kind = self.session_type(peer);
        RibEntryView {
            route: if kind == Some(BgpSessionType::EBgp) {
                RouteView { next_hop: self.router_id, local_pref: None, ..e.route }
            } else {
                e.route
            },
            from_type: match kind {
                Some(k) => k,
                None => e.from_type,
            },
            ..e
        }
    }

    /// The export filter: never back to the neighbor the route was learned from, never
    /// against the no-export policy, and else by the kinds of the two sessions.
    pub open spec fn should_export(self, from: RouterId, to: RouterId) -> Result<bool, DeviceError> {
        if from == to {
            Ok(false)
        } else if self.no_export.contains((from, to)) {
            Ok(false)
        } else {
            match (self.session_type(from), self.session_type(to)) {
                (None, _) => Err(DeviceError::NoBgpSession(from)),
                (Some(_), None) => Err(DeviceError::NoBgpSession(to)),
                (Some(f), Some(t)) => Ok(export_allowed(f, t)),
            }
        }
    }

    /// What dissemination of `prefix` does for the neighbor `peer`.
    pub open spec fn peer_action(self, prefix: Prefix, peer: RouterId) -> Result<
        PeerAction,
        DeviceError,
    > {
        let announced = self.rib_out.contains_key((prefix, peer));
        if self.rib.contains_key(prefix) {
            let best = self.export_entry(self.rib[prefix], peer);
            if announced && best.same_entry(self.rib_out[(prefix, peer)]) {
                Ok(PeerAction::Keep)
            } else {
                match self.should_export(best.from_id, peer) {
                    Err(e) => Err(e),
                    Ok(true) => Ok(PeerAction::Announce(best)),
                    Ok(false) => if announced {
                        Ok(PeerAction::Retract)
                    } else {
                        Ok(PeerAction::Keep)
                    },
                }
            }
        } else if announced {
            Ok(PeerAction::Retract)
        } else {
            Ok(PeerAction::Keep)
        }
    }

    /// Dissemination of `prefix` to the first `k` sessions, in session order; it stops
    /// at the first error and keeps what was sent before.
    pub open spec fn disseminate_upto(self, prefix: Prefix, k: int) -> Dissemination
        decreases k,
    {
        if k <= 0 {
            Dissemination { rib_out: self.rib_out, events: Seq::empty(), error: None }
        } else {
            let prev = self.disseminate_upto(prefix, k - 1);
            let peer = self.sessions[k - 1].0;
            if prev.error is Some {
                prev
            } else {
                match (RouterState { rib_out: prev.rib_out, ..self }).peer_action(prefix, peer) {
                    Err(e) => Dissemination { error: Some(e), ..prev },
                    Ok(PeerAction::Keep) => prev,
                    Ok(PeerAction::Announce(b)) => Dissemination {
                        rib_out: prev.rib_out.insert((prefix, peer), b),
                        events: prev.events.push(
                            EventView::Bgp(self.router_id, peer, BgpEventView::Update(b.route)),
                        ),
                        error: None,
                    },
                    Ok(PeerAction::Retract) => Dissemination {
                        rib_out: prev.rib_out.remove((prefix, peer)),
                        events: prev.events.push(
                            EventView::Bgp(self.router_id, peer, BgpEventView::Withdraw(prefix)),
                        ),
                        error: None,
                    },
                }
            }
        }
    }

    /// Dissemination of one prefix to every session.
    pub open spec fn disseminate(self, prefix: Prefix) -> Outcome {
        let d = self.disseminate_upto(prefix, self.sessions.len() as int);
        Outcome {
            state: RouterState { rib_out: d.rib_out, ..self },
            events: d.events,
            result: match d.error {
                Some(e) => Err(e),
                None => Ok(()),
            },
        }
    }

    /// Dissemination of the first `k` known prefixes; it stops at the first error.
    pub open spec fn disseminate_all_upto(self, k: int) -> Outcome
        decreases k,
    {
        if k <= 0 {
            Outcome { state: self, events: Seq::empty(), result: Ok(()) }
        } else {
            let prev = self.disseminate_all_upto(k - 1);
            if prev.result is Err {
                prev
            } else {
                let step = prev.state.disseminate(self.known_prefixes[k - 1]);
                Outcome { events: prev.events + step.events, ..step }
            }
        }
    }

    /// Dissemination of every known prefix.
    pub open spec fn disseminate_all(self) -> Outcome {
        self.disseminate_all_upto(self.known_prefixes.len() as int)
    }

    // ----- event handling -----

    /// Decision followed by dissemination for one prefix. A failed decision leaves the
    /// state as it is and sends nothing.
    pub open spec fn update_prefix(self, prefix: Prefix) -> Outcome {
        match self.decide(prefix) {
            Err(e) => Outcome { state: self, events: Seq::empty(), result: Err(e) },
            Ok(s) => s.disseminate(prefix),
        }
    }

    /// Handling of one event: events addressed to another router are ignored; an UPDATE
    /// or WITHDRAW changes RIB-in, makes the prefix known, and runs decision and
    /// dissemination for that prefix.
    pub open spec fn handle_event(self, event: EventView) -> Outcome {
        match event {
            EventView::Bgp(from, to, msg) => if to != self.router_id {
                Outcome { state: self, events: Seq::empty(), result: Ok(()) }
            } else {
                match msg {
                    BgpEventView::Update(route) => match self.insert_route(route, from) {
                        Err(e) => Outcome { state: self, events: Seq::empty(), result: Err(e) },
                        Ok(s) => s.learn_prefix(route.prefix).update_prefix(route.prefix),
                    },
                    BgpEventView::Withdraw(prefix) => self.remove_route(prefix, from).learn_prefix(
                        prefix,
                    ).update_prefix(prefix),
                }
            },
        }
    }

    /// The IGP next hop towards `prefix`: the first hop of the IGP path to the next hop
    /// of the selected entry. There is none without a selected entry, or when the next
    /// hop is unknown or unreachable in the IGP table.
    pub open spec fn next_hop(self, prefix: Prefix) -> Option<RouterId> {
        if self.rib.contains_key(prefix) && self.igp.contains_key(self.rib[prefix].route.next_hop) {
            match self.igp[self.rib[prefix].route.next_hop] {
                Some((hop, _)) => Some(hop),
                None => None,
            }
        } else {
            None
        }
    }
}

/// A RIB keyed by prefix and neighbor, without the entries of `peer`.
pub open spec fn purge_neighbor(
    rib: Map<(Prefix, RouterId), RibEntryView>,
    peer: RouterId,
) -> Map<(Prefix, RouterId), RibEntryView> {
    rib.restrict(Set::new(|k: (Prefix, RouterId)| k.1 != peer))
}

} // verus!
