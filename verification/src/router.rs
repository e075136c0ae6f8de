//! The internal router: the executable BGP state machine of one device of the AS.
//!
//! Every operation is specified by the function of the same purpose in
//! [`crate::state`], applied to the view of the router.

use vstd::prelude::*;
use std::collections::HashMap;
use crate::bgp::{BgpEvent, BgpRoute, BgpSessionType, DEFAULT_LOCAL_PREF};
use crate::event::{queue_view, Event, EventQueue, EventView};
use crate::igp::{forwarding_table, igp_table, lemma_sound_paths_derivable, IgpNetwork};
use crate::igp_theorems::{describes_shortest_paths, lemma_table_describes_shortest_paths};
use crate::preservation::{lemma_purge_upto, purge_upto};
use crate::rib::{entries_view, entry_view, RIBEntry, RibEntryView};
use crate::state::{Dissemination, Outcome, RouterState};
use crate::theorems::{addressee, event_prefix};
use crate::types::{AsId, DeviceError, IgpCost, NetworkDevice, Prefix, RouterId};

verus! {

/// The key under which the entry for `prefix` and `peer` is stored.
spec fn rib_key(prefix: Prefix, peer: RouterId) -> u64 {
    (prefix.0 as u64 * 0x1_0000_0000 + peer as u64) as u64
}

/// The entries of a stored RIB, by prefix and neighbor.
spec fn rib_by_neighbor(m: Map<u64, RIBEntry>) -> Map<(Prefix, RouterId), RibEntryView> {
    Map::new(
        |k: (Prefix, RouterId)| m.contains_key(rib_key(k.0, k.1)),
        |k: (Prefix, RouterId)| m[rib_key(k.0, k.1)]@,
    )
}

/// The entries of a stored RIB, by prefix.
spec fn rib_by_prefix(m: Map<u32, RIBEntry>) -> Map<Prefix, RibEntryView> {
    Map::new(|p: Prefix| m.contains_key(p.0), |p: Prefix| m[p.0]@)
}

/// Computes the key under which the entry for `prefix` and `peer` is stored.
fn make_key(prefix: Prefix, peer: RouterId) -> (k: u64)
    ensures
        k == rib_key(prefix, peer),
{
    prefix.0 as u64 * 0x1_0000_0000 + peer as u64
}

/// Different pairs of prefix and neighbor have different keys.
proof fn lemma_rib_key_injective(p1: Prefix, n1: RouterId, p2: Prefix, n2: RouterId)
    ensures
        rib_key(p1, n1) == rib_key(p2, n2) <==> (p1 == p2 && n1 == n2),
{
}

/// Storing an entry under the key of a pair stores it for that pair.
proof fn lemma_rib_insert(m: Map<u64, RIBEntry>, prefix: Prefix, peer: RouterId, e: RIBEntry)
    ensures
        rib_by_neighbor(m.insert(rib_key(prefix, peer), e)) == rib_by_neighbor(m).insert(
            (prefix, peer),
            e@,
        ),
{
    assert forall|k: (Prefix, RouterId)|
        (rib_key(k.0, k.1) == rib_key(prefix, peer)) == (k == (prefix, peer)) by {
        lemma_rib_key_injective(k.0, k.1, prefix, peer);
    }
    assert(rib_by_neighbor(m.insert(rib_key(prefix, peer), e)) =~= rib_by_neighbor(m).insert(
        (prefix, peer),
        e@,
    ));
}

/// Removing the key of a pair removes the entry of that pair.
proof fn lemma_rib_remove(m: Map<u64, RIBEntry>, prefix: Prefix, peer: RouterId)
    ensures
        rib_by_neighbor(m.remove(rib_key(prefix, peer))) == rib_by_neighbor(m).remove(
            (prefix, peer),
        ),
{
    assert forall|k: (Prefix, RouterId)|
        (rib_key(k.0, k.1) == rib_key(prefix, peer)) == (k == (prefix, peer)) by {
        lemma_rib_key_injective(k.0, k.1, prefix, peer);
    }
    assert(rib_by_neighbor(m.remove(rib_key(prefix, peer))) =~= rib_by_neighbor(m).remove(
        (prefix, peer),
    ));
}

/// An internal router: the BGP state machine of one device of the AS.
#[derive(Debug)]
pub struct Router {
    /// Name of the router.
    name: &'static str,
    /// Id of the router.
    router_id: RouterId,
    /// AS of the router.
    as_id: AsId,
    /// IGP forwarding table: next hop and cost by target, `None` for an unreachable one.
    pub igp_forwarding_table: HashMap<RouterId, Option<(RouterId, IgpCost)>>,
    /// Open BGP sessions with the kind of each, in the order of their establishment.
    sessions: Vec<(RouterId, BgpSessionType)>,
    /// RIB-in: the received entries, one for every prefix and every session.
    bgp_rib_in: HashMap<u64, RIBEntry>,
    /// RIB: the selected best entry of every prefix.
    bgp_rib: HashMap<u32, RIBEntry>,
    /// RIB-out: the entries last announced, one for every prefix and every session.
    bgp_rib_out: HashMap<u64, RIBEntry>,
    /// The known prefixes, each listed once.
    bgp_known_prefixes: Vec<Prefix>,
    /// Local preference given to the routes received over eBGP, by the neighbor that
    /// sent them.
    pub policy_bgp_local_pref: HashMap<RouterId, u32>,
    /// Export bans: the pair `(from, to)` tells that a route learned from `from` is
    /// *not* exported to the neighbor `to`.
    pub policy_bgp_route_no_export: Vec<(RouterId, RouterId)>,
}

impl View for Router {
    type V = RouterState;

    closed spec fn view(&self) -> RouterState {
        RouterState {
            name: self.name@,
            router_id: self.router_id,
            as_id: self.as_id,
            igp: self.igp_forwarding_table@,
            sessions: self.sessions@,
            rib_in: rib_by_neighbor(self.bgp_rib_in@),
            rib: rib_by_prefix(self.bgp_rib@),
            rib_out: rib_by_neighbor(self.bgp_rib_out@),
            known_prefixes: self.bgp_known_prefixes@,
            local_pref_policy: self.policy_bgp_local_pref@,
            no_export: self.policy_bgp_route_no_export@.to_set(),
        }
    }
}

impl NetworkDevice for Router {
    open spec fn valid(&self) -> bool {
        self.wf()
    }

    open spec fn id(&self) -> RouterId {
        self@.router_id
    }

    open spec fn autonomous_system(&self) -> AsId {
        self@.as_id
    }

    open spec fn label(&self) -> Seq<char> {
        self@.name
    }

    /// Creates a router without sessions, routes or forwarding entries.
    fn new(name: &'static str, router_id: RouterId, as_id: AsId) -> (r: Router)
        ensures
            r@ == RouterState::init(name@, router_id, as_id),
    {
        let r = Router {
            name,
            router_id,
            as_id,
            igp_forwarding_table: HashMap::new(),
            sessions: Vec::new(),
            bgp_rib_in: HashMap::new(),
            bgp_rib: HashMap::new(),
            bgp_rib_out: HashMap::new(),
            bgp_known_prefixes: Vec::new(),
            policy_bgp_local_pref: HashMap::new(),
            policy_bgp_route_no_export: Vec::new(),
        };
        proof {
            assert(r@.rib_in =~= Map::empty());
            assert(r@.rib_out =~= Map::empty());
            assert(r@.rib =~= Map::empty());
            assert(r@.no_export =~= Set::empty());
        }
        r
    }

    /// The id of the router.
    fn router_id(&self) -> (r: RouterId) {
        self.router_id
    }

    /// The name of the router.
    fn name(&self) -> (r: &'static str) {
        self.name
    }

    /// The AS of the router.
    fn as_id(&self) -> (r: AsId) {
        self.as_id
    }

    /// Handles an event: a message for this router changes RIB-in, then the decision
    /// process and the dissemination run for its prefix, and what the router has to
    /// say is appended to the queue.
    fn handle_event(&mut self, event: Event, queue: &mut EventQueue) -> (r: Result<
        (),
        DeviceError,
    >)
        ensures
            final(self)@ == old(self)@.handle_event(event@).state,
            queue_view(final(queue)) == queue_view(old(queue)) + old(self)@.handle_event(
                event@,
            ).events,
            r == old(self)@.handle_event(event@).result,
            r is Ok && addressee(event@) == old(self)@.router_id ==> final(self)@.selected_is_best(
                event_prefix(event@),
            ),
    {
        proof {
            if addressee(event@) == old(self)@.router_id && old(self)@.handle_event(
                event@,
            ).result is Ok {
                old(self)@.lemma_handle_event_selects_best(event@);
            }
        }
        assert(queue_view(queue) + Seq::<EventView>::empty() =~= queue_view(queue));
        match event {
            Event::Bgp(from, to, bgp_event) => {
                if to != self.router_id {
                    return Ok(());
                }
                // phase 1 of BGP protocol
                let prefix = match bgp_event {
                    BgpEvent::Update(route) => match self.insert_bgp_route(route, from) {
                        Ok(prefix) => prefix,
                        Err(e) => {
                            return Err(e);
                        },
                    },
                    BgpEvent::Withdraw(prefix) => self.remove_bgp_route(prefix, from),
                };
                proof {
                    self@.lemma_learn_wf(old(self)@, prefix, from);
                }
                self.learn_prefix(prefix);
                // phase 2
                match self.run_bgp_decision_process_for_prefix(prefix) {
                    Ok(()) => {},
                    Err(e) => {
                        return Err(e);
                    },
                }
                // phase 3
                self.run_bgp_route_dissemination_for_prefix(prefix, queue)
            },
        }
    }
}

impl Router {
    /// The invariant of the router: that of its state.
    pub open spec fn wf(&self) -> bool {
        self@.wf()
    }

    /// Replaces the IGP forwarding table.
    pub fn set_igp_forwarding_table(
        &mut self,
        table: HashMap<RouterId, Option<(RouterId, IgpCost)>>,
    )
        ensures
            old(self).wf() ==> final(self).wf(),
            final(self)@ == (RouterState { igp: table@, ..old(self)@ }),
    {
        self.igp_forwarding_table = table;
        proof {
            if old(self).wf() {
                old(self)@.lemma_igp_wf(self@);
            }
        }
    }

    /// Sets the local preference for the routes that `neighbor` sends over eBGP; with
    /// `None` they get the default again.
    pub fn set_local_pref_policy(&mut self, neighbor: RouterId, local_pref: Option<u32>)
        ensures
            old(self).wf() ==> final(self).wf(),
            final(self)@ == (RouterState {
                local_pref_policy: match local_pref {
                    Some(value) => old(self)@.local_pref_policy.insert(neighbor, value),
                    None => old(self)@.local_pref_policy.remove(neighbor),
                },
                ..old(self)@
            }),
    {
        match local_pref {
            Some(value) => {
                self.policy_bgp_local_pref.insert(neighbor, value);
            },
            None => {
                self.policy_bgp_local_pref.remove(&neighbor);
            },
        }
        proof {
            if old(self).wf() {
                old(self)@.lemma_policy_wf(self@);
            }
        }
    }

    /// Forbids the export of routes learned from `from` to the neighbor `to`.
    pub fn forbid_export(&mut self, from: RouterId, to: RouterId)
        ensures
            old(self).wf() ==> final(self).wf(),
            final(self)@ == (RouterState {
                no_export: old(self)@.no_export.insert((from, to)),
                ..old(self)@
            }),
    {
        self.policy_bgp_route_no_export.push((from, to));
        proof {
            let before = old(self).policy_bgp_route_no_export@;
            let after = self.policy_bgp_route_no_export@;
            assert forall|pair: (RouterId, RouterId)|
                after.to_set().contains(pair) <==> before.to_set().insert((from, to)).contains(
                    pair,
                ) by {
                if before.contains(pair) {
                    let i = choose|i: int| 0 <= i < before.len() && before[i] == pair;
                    assert(after[i] == pair);
                }
                if pair == (from, to) {
                    assert(after[before.len() as int] == pair);
                }
                if after.contains(pair) {
                    let i = choose|i: int| 0 <= i < after.len() && after[i] == pair;
                    if i < before.len() {
                        assert(before[i] == pair);
                    }
                }
            }
            assert(after.to_set() =~= before.to_set().insert((from, to)));
            if old(self).wf() {
                old(self)@.lemma_policy_wf(self@);
            }
        }
    }

    /// The kind of the session with `peer`.
    fn get_bgp_session_type(&self, peer: RouterId) -> (r: Result<BgpSessionType, DeviceError>)
        requires
            self.wf(),
        ensures
            r == match self@.session_type(peer) {
                Some(kind) => Ok::<BgpSessionType, DeviceError>(kind),
                None => Err(DeviceError::NoBgpSession(peer)),
            },
    {
        let mut i: usize = 0;
        while i < self.sessions.len()
            invariant
                i <= self.sessions.len(),
                self.wf(),
                forall|j: int| 0 <= j < i ==> (#[trigger] self.sessions@[j]).0 != peer,
            decreases self.sessions.len() - i,
        {
            if self.sessions[i].0 == peer {
                proof {
                    let k = self@.session_index(peer);
                    assert(self@.sessions[i as int].0 == peer);
                    assert(k == i);
                }
                return Ok(self.sessions[i].1);
            }
            i = i + 1;
        }
        Err(DeviceError::NoBgpSession(peer))
    }

    /// Establishes a BGP session with `target`. The kind tells what `target` is to this
    /// router: with `BgpSessionType::IBgpClient` it becomes a client of this router.
    pub fn establish_bgp_session(&mut self, target: RouterId, session_type: BgpSessionType) -> (r:
        Result<(), DeviceError>)
        requires
            old(self).wf(),
        ensures
            final(self).wf(),
            match old(self)@.establish_session(target, session_type) {
                Ok(s) => r is Ok && final(self)@ == s,
                Err(e) => r == Err::<(), DeviceError>(e) && final(self)@ == old(self)@,
            },
    {
        if self.get_bgp_session_type(target).is_ok() {
            return Err(DeviceError::SessionAlreadyExists(target));
        }
        proof {
            old(self)@.lemma_establish_wf(target, session_type);
        }
        self.sessions.push((target, session_type));
        Ok(())
    }

    /// Closes the BGP session with `target` and purges what was received from it and
    /// announced to it. The decision process is not run.
    pub fn close_bgp_session(&mut self, target: RouterId) -> (r: Result<(), DeviceError>)
        requires
            old(self).wf(),
        ensures
            final(self).wf(),
            match old(self)@.close_session(target) {
                Ok(s) => r is Ok && final(self)@ == s,
                Err(e) => r == Err::<(), DeviceError>(e) && final(self)@ == old(self)@,
            },
    {
        let mut at: usize = 0;
        while at < self.sessions.len() && self.sessions[at].0 != target
            invariant
                at <= self.sessions.len(),
                forall|j: int| 0 <= j < at ==> (#[trigger] self.sessions@[j]).0 != target,
            decreases self.sessions.len() - at,
        {
            at = at + 1;
        }
        if at >= self.sessions.len() {
            return Err(DeviceError::NoBgpSession(target));
        }
        proof {
            old(self)@.lemma_session_found(at as int);
            old(self)@.lemma_close_wf(target);
        }
        self.sessions.remove(at);
        let ghost rib_in = old(self)@.rib_in;
        let ghost rib_out = old(self)@.rib_out;
        let ghost known = old(self)@.known_prefixes;
        let mut k: usize = 0;
        while k < self.bgp_known_prefixes.len()
            invariant
                k <= self.bgp_known_prefixes.len(),
                known == self.bgp_known_prefixes@,
                self@.rib_in == purge_upto(rib_in, known, target, k as int),
                self@.rib_out == purge_upto(rib_out, known, target, k as int),
                self@ == (RouterState {
                    sessions: old(self)@.sessions.remove(at as int),
                    rib_in: self@.rib_in,
                    rib_out: self@.rib_out,
                    ..old(self)@
                }),
            decreases self.bgp_known_prefixes.len() - k,
        {
            let key = make_key(self.bgp_known_prefixes[k], target);
            proof {
                lemma_rib_remove(self.bgp_rib_in@, self.bgp_known_prefixes@[k as int], target);
                lemma_rib_remove(self.bgp_rib_out@, self.bgp_known_prefixes@[k as int], target);
            }
            self.bgp_rib_in.remove(&key);
            self.bgp_rib_out.remove(&key);
            k = k + 1;
        }
        proof {
            lemma_purge_upto(rib_in, known, target, k as int);
            lemma_purge_upto(rib_out, known, target, k as int);
        }
        Ok(())
    }

    /// Tells whether the no-export policy forbids passing routes learned from `from` on to `to`.
    fn export_forbidden(&self, from: RouterId, to: RouterId) -> (r: bool)
        ensures
            r == self@.no_export.contains((from, to)),
    {
        let mut i: usize = 0;
        while i < self.policy_bgp_route_no_export.len()
            invariant
                i <= self.policy_bgp_route_no_export.len(),
                forall|j: int|
                    0 <= j < i ==> #[trigger] self.policy_bgp_route_no_export@[j] != (from, to),
            decreases self.policy_bgp_route_no_export.len() - i,
        {
            let pair = self.policy_bgp_route_no_export[i];
            if pair.0 == from && pair.1 == to {
                assert(self.policy_bgp_route_no_export@[i as int] == (from, to));
                return true;
            }
            i = i + 1;
        }
        false
    }

    /// Tells whether a route learned from `from` may be announced to `to`.
    fn should_export_route(&self, from: RouterId, to: RouterId) -> (r: Result<bool, DeviceError>)
        requires
            self.wf(),
        ensures
            r == self@.should_export(from, to),
    {
        // never advertise a route to the receiver
        if from == to {
            return Ok(false);
        }
        // read the policy
        if self.export_forbidden(from, to) {
            return Ok(false);
        }
        // check the types
        let from_type = match self.get_bgp_session_type(from) {
            Ok(t) => t,
            Err(e) => {
                return Err(e);
            },
        };
        let to_type = match self.get_bgp_session_type(to) {
            Ok(t) => t,
            Err(e) => {
                return Err(e);
            },
        };
        Ok(
            match (from_type, to_type) {
                (BgpSessionType::EBgp, _) => true,
                (BgpSessionType::IBgpClient, _) => true,
                (_, BgpSessionType::EBgp) => true,
                (_, BgpSessionType::IBgpClient) => true,
                _ => false,
            },
        )
    }

    /// The processed form of an entry of RIB-in.
    fn process_bgp_rib_in_route(&self, entry: &RIBEntry) -> (r: Result<RIBEntry, DeviceError>)
        ensures
            match self@.process_in(entry@) {
                Ok(e) => r is Ok && r->Ok_0@ == e,
                Err(e) => r is Err && r->Err_0 == e,
            },
    {
        if entry.from_type.is_ebgp() {
            let local_pref: u32 = match self.policy_bgp_local_pref.get(&entry.from_id) {
                Some(x) => *x,
                None => DEFAULT_LOCAL_PREF,
            };
            let mut new_route = entry.route.clone_default();
            new_route.local_pref = Some(local_pref);
            // the neighbor that delivered the route becomes its next hop
            new_route.next_hop = entry.from_id;
            Ok(
                RIBEntry {
                    route: new_route,
                    from_type: entry.from_type,
                    from_id: entry.from_id,
                    igp_cost: Some(0),
                },
            )
        } else {
            // the cost of the IGP path to the next hop
            let igp_cost: IgpCost = match self.igp_forwarding_table.get(&entry.route.next_hop) {
                None => {
                    return Err(DeviceError::RouterNotFound(entry.route.next_hop));
                },
                Some(target) => match target {
                    None => {
                        return Err(DeviceError::RouterNotReachable(entry.route.next_hop));
                    },
                    Some(hop) => hop.1,
                },
            };
            Ok(
                RIBEntry {
                    route: entry.route.clone_default(),
                    from_type: entry.from_type,
                    from_id: entry.from_id,
                    igp_cost: Some(igp_cost),
                },
            )
        }
    }

    /// The selected entry as it is announced to `target_peer` and recorded in RIB-out.
    fn process_bgp_rib_out_route(&self, entry: &RIBEntry, target_peer: RouterId) -> (r: Result<
        RIBEntry,
        DeviceError,
    >)
        requires
            self.wf(),
        ensures
            match self@.session_type(target_peer) {
                Some(_) => r is Ok && r->Ok_0@ == self@.export_entry(entry@, target_peer),
                None => r is Err && r->Err_0 == DeviceError::NoBgpSession(target_peer),
            },
    {
        let kind = match self.get_bgp_session_type(target_peer) {
            Ok(t) => t,
            Err(e) => {
                return Err(e);
            },
        };
        let mut new_route = entry.route.clone();
        if kind.is_ebgp() {
            new_route.next_hop = self.router_id;
            new_route.local_pref = None;
        }
        Ok(
            RIBEntry {
                route: new_route,
                from_type: kind,
                from_id: entry.from_id,
                igp_cost: entry.igp_cost,
            },
        )
    }

    /// The decision process (phase 2) for one prefix.
    fn run_bgp_decision_process_for_prefix(&mut self, prefix: Prefix) -> (r: Result<
        (),
        DeviceError,
    >)
        requires
            old(self).wf(),
            old(self)@.known_prefixes.contains(prefix),
        ensures
            final(self).wf(),
            match old(self)@.decide(prefix) {
                Ok(s) => r is Ok && final(self)@ == s,
                Err(e) => r == Err::<(), DeviceError>(e) && final(self)@ == old(self)@,
            },
    {
        let mut new_entry: Option<RIBEntry> = None;
        // the best of the processed entries
        let mut i: usize = 0;
        while i < self.sessions.len()
            invariant
                i <= self.sessions.len(),
                self == old(self),
                self.wf(),
                self@.best_upto(prefix, i as int) == Ok::<Option<RibEntryView>, DeviceError>(
                    entry_view(new_entry),
                ),
                new_entry matches Some(e) ==> e.igp_cost is Some,
            decreases self.sessions.len() - i,
        {
            let key = make_key(prefix, self.sessions[i].0);
            match self.bgp_rib_in.get(&key) {
                None => {},
                Some(entry_unprocessed) => {
                    match self.process_bgp_rib_in_route(entry_unprocessed) {
                        Err(e) => {
                            proof {
                                self@.lemma_best_upto_err(
                                    prefix,
                                    i + 1,
                                    self.sessions.len() as int,
                                );
                            }
                            return Err(e);
                        },
                        Ok(entry) => {
                            let better = match &new_entry {
                                None => true,
                                Some(current_best) => entry.preferred(current_best),
                            };
                            if better {
                                new_entry = Some(entry);
                            }
                        },
                    }
                },
            }
            i = i + 1;
        }
        // the winner is selected as it was processed now
        match new_entry {
            None => {
                self.bgp_rib.remove(&prefix.0);
                assert(self@.rib =~= old(self)@.rib.remove(prefix));
            },
            Some(best) => {
                self.bgp_rib.insert(prefix.0, best);
                assert(self@.rib =~= old(self)@.rib.insert(prefix, best@));
            },
        }
        proof {
            old(self)@.lemma_rib_wf(self@, prefix);
        }
        Ok(())
    }

    /// The route dissemination (phase 3) for one prefix.
    fn run_bgp_route_dissemination_for_prefix(&mut self, prefix: Prefix, queue: &mut EventQueue) -> (r:
        Result<(), DeviceError>)
        requires
            old(self).wf(),
            old(self)@.known_prefixes.contains(prefix),
        ensures
            final(self).wf(),
            final(self)@ == old(self)@.disseminate(prefix).state,
            queue_view(final(queue)) == queue_view(old(queue)) + old(self)@.disseminate(
                prefix,
            ).events,
            r == old(self)@.disseminate(prefix).result,
    {
        let ghost start = old(self)@;
        let ghost mut sent: Seq<EventView> = Seq::empty();
        assert(queue_view(queue) =~= queue_view(old(queue)) + sent);
        let mut i: usize = 0;
        while i < self.sessions.len()
            invariant
                i <= self.sessions.len(),
                start == old(self)@,
                start.wf(),
                start.known_prefixes.contains(prefix),
                self.wf(),
                self@ == (RouterState { rib_out: self@.rib_out, ..start }),
                start.disseminate_upto(prefix, i as int) == (Dissemination {
                    rib_out: self@.rib_out,
                    events: sent,
                    error: None,
                }),
                queue_view(queue) == queue_view(old(queue)) + sent,
            decreases self.sessions.len() - i,
        {
            let peer = self.sessions[i].0;
            let key = make_key(prefix, peer);
            let ghost before = self@;
            let ghost before_queue = queue_view(queue);
            proof {
                start.lemma_session_found(i as int);
                assert(before.sessions == start.sessions);
                lemma_rib_insert_any(self.bgp_rib_out@, prefix, peer);
                lemma_rib_remove(self.bgp_rib_out@, prefix, peer);
            }
            // what this peer is to hear
            let best_route: Option<RIBEntry> = match self.bgp_rib.get(&prefix.0) {
                Some(e) => match self.process_bgp_rib_out_route(e, peer) {
                    Ok(b) => Some(b),
                    Err(e) => {
                        return Err(e);
                    },
                },
                None => None,
            };
            // what this peer has heard
            let announced = self.bgp_rib_out.contains_key(&key);
            let unchanged = match (&best_route, self.bgp_rib_out.get(&key)) {
                (Some(best_r), Some(current_r)) => *best_r == *current_r,
                _ => false,
            };
            let event: Option<BgpEvent> = match best_route {
                Some(best_r) => {
                    if unchanged {
                        // the peer knows
                        None
                    } else {
                        match self.should_export_route(best_r.from_id, peer) {
                            Err(e) => {
                                proof {
                                    start.lemma_disseminate_upto_err(
                                        prefix,
                                        i + 1,
                                        self.sessions.len() as int,
                                    );
                                }
                                return Err(e);
                            },
                            Ok(true) => {
                                // announce the new route
                                let event = BgpEvent::Update(best_r.route.clone());
                                self.bgp_rib_out.insert(key, best_r);
                                Some(event)
                            },
                            Ok(false) => {
                                if announced {
                                    // the new route is not for this peer: take the old one back
                                    self.bgp_rib_out.remove(&key);
                                    Some(BgpEvent::Withdraw(prefix))
                                } else {
                                    None
                                }
                            },
                        }
                    }
                },
                None => {
                    if announced {
                        // no route is left: take the old one back
                        self.bgp_rib_out.remove(&key);
                        Some(BgpEvent::Withdraw(prefix))
                    } else {
                        None
                    }
                },
            };
            // queue the message
            if let Some(event) = event {
                let message = Event::Bgp(self.router_id, peer, event);
                proof {
                    sent = sent.push(message@);
                    assert(queue@.push(message).map_values(|e: Event| e@) =~= queue@.map_values(
                        |e: Event| e@,
                    ).push(message@));
                }
                queue.push_back(message);
                assert(queue_view(queue) =~= queue_view(old(queue)) + sent);
            }
            proof {
                before.lemma_rib_out_wf(self@, prefix, peer);
            }
            i = i + 1;
        }
        Ok(())
    }

    /// Stores a received route in RIB-in, in place of what the neighbor sent for the
    /// prefix before, and returns the prefix.
    fn insert_bgp_route(&mut self, route: BgpRoute, from: RouterId) -> (r: Result<Prefix, DeviceError>)
        requires
            old(self).wf(),
        ensures
            match old(self)@.insert_route(route@, from) {
                Ok(s) => r == Ok::<Prefix, DeviceError>(route.prefix) && final(self)@ == s,
                Err(e) => r == Err::<Prefix, DeviceError>(e) && final(self)@ == old(self)@,
            },
    {
        let prefix = route.prefix;
        let from_type = match self.get_bgp_session_type(from) {
            Ok(t) => t,
            Err(e) => {
                return Err(e);
            },
        };
        // The route is stored as it came: policy and IGP cost are applied by the decision
        // process, so that a change of either takes effect without a new message.
        let new_entry = RIBEntry { route, from_type, from_id: from, igp_cost: None };
        proof {
            lemma_rib_insert(self.bgp_rib_in@, prefix, from, new_entry);
        }
        self.bgp_rib_in.insert(make_key(prefix, from), new_entry);
        Ok(prefix)
    }

    /// Removes what the neighbor sent for the prefix from RIB-in, if anything, and
    /// returns the prefix.
    fn remove_bgp_route(&mut self, prefix: Prefix, from: RouterId) -> (r: Prefix)
        ensures
            r == prefix,
            final(self)@ == old(self)@.remove_route(prefix, from),
    {
        proof {
            lemma_rib_remove(self.bgp_rib_in@, prefix, from);
        }
        self.bgp_rib_in.remove(&make_key(prefix, from));
        prefix
    }

    /// Records the prefix as known.
    fn learn_prefix(&mut self, prefix: Prefix)
        ensures
            final(self)@ == old(self)@.learn_prefix(prefix),
    {
        let mut i: usize = 0;
        while i < self.bgp_known_prefixes.len()
            invariant
                i <= self.bgp_known_prefixes.len(),
                self == old(self),
                forall|j: int| 0 <= j < i ==> #[trigger] self.bgp_known_prefixes@[j] != prefix,
            decreases self.bgp_known_prefixes.len() - i,
        {
            if self.bgp_known_prefixes[i].0 == prefix.0 {
                assert(self.bgp_known_prefixes@[i as int] == prefix);
                return ;
            }
            i = i + 1;
        }
        self.bgp_known_prefixes.push(prefix);
    }

    /// Writes the IGP forwarding table from the topology, in which the id of this router
    /// is its node.
    ///
    /// The table is replaced by the one derived from the shortest paths of `graph`
    /// rooted at this router. That fails exactly when the router is no node of the
    /// topology, and the table then stays as it is. A table that is written holds, for
    /// every router of the graph, either that it is unreachable or the cost of the
    /// shortest path to it and a neighbor of this router on such a path.
    pub fn write_igp_forwarding_table(&mut self, graph: &IgpNetwork) -> (r: Result<
        (),
        DeviceError,
    >)
        requires
            graph.wf(),
        ensures
            old(self).wf() ==> final(self).wf(),
            r is Ok <==> old(self)@.router_id < graph.nodes(),
            r is Ok ==> describes_shortest_paths(
                graph.nodes(),
                graph.links(),
                old(self)@.router_id,
                final(self)@.igp,
            ),
            match igp_table(graph, old(self)@.router_id) {
                Some(table) => r is Ok && final(self)@ == (RouterState { igp: table, ..old(self)@ }),
                None => r == Err::<(), DeviceError>(
                    DeviceError::BadIgpTopology(old(self)@.router_id),
                ) && final(self)@ == old(self)@,
            },
    {
        // shortest paths to all other routers
        let paths = match graph.shortest_paths(self.router_id) {
            Some(paths) => paths,
            None => {
                return Err(DeviceError::BadIgpTopology(self.router_id));
            },
        };
        proof {
            lemma_sound_paths_derivable(
                graph.nodes(),
                graph.links(),
                self.router_id,
                paths.0@,
                paths.1@,
            );
        }
        match forwarding_table(self.router_id, &paths.0, &paths.1) {
            Ok(table) => {
                self.igp_forwarding_table = table;
                proof {
                    if old(self).wf() {
                        old(self)@.lemma_igp_wf(self@);
                    }
                    lemma_table_describes_shortest_paths(
                        graph.nodes(),
                        graph.links(),
                        self.router_id,
                    );
                }
                Ok(())
            },
            Err(e) => Err(e),
        }
    }

    /// Runs the decision process for every known prefix. Nothing is disseminated.
    /// Afterwards the selected entry of every known prefix is the best of the processed
    /// entries received for it, with the IGP cost of the current table.
    pub fn bgp_decision_process(&mut self) -> (r: Result<(), DeviceError>)
        requires
            old(self).wf(),
        ensures
            final(self).wf(),
            (final(self)@, r) == old(self)@.decide_all(),
            final(self)@.router_id == old(self)@.router_id,
            r is Ok ==> forall|p: Prefix|
                final(self)@.known_prefixes.contains(p) ==> #[trigger] final(self)@.selected_is_best(p),
    {
        proof {
            if old(self)@.decide_all().1 is Ok {
                old(self)@.lemma_decide_all_selects_best();
            }
        }
        let ghost start = old(self)@;
        let mut k: usize = 0;
        while k < self.bgp_known_prefixes.len()
            invariant
                k <= self.bgp_known_prefixes.len(),
                start == old(self)@,
                self.wf(),
                self@.known_prefixes == start.known_prefixes,
                self@.router_id == start.router_id,
                start.decide_upto(k as int) == (self@, Ok::<(), DeviceError>(())),
            decreases self.bgp_known_prefixes.len() - k,
        {
            let prefix = self.bgp_known_prefixes[k];
            assert(self@.known_prefixes[k as int] == prefix);
            match self.run_bgp_decision_process_for_prefix(prefix) {
                Ok(()) => {},
                Err(e) => {
                    proof {
                        start.lemma_decide_upto_err(k + 1, start.known_prefixes.len() as int);
                    }
                    return Err(e);
                },
            }
            k = k + 1;
        }
        Ok(())
    }

    /// Runs the route dissemination for every known prefix: what the neighbors have to
    /// hear is appended to the queue.
    pub fn bgp_route_dissemination(&mut self, queue: &mut EventQueue) -> (r: Result<(), DeviceError>)
        requires
            old(self).wf(),
        ensures
            final(self).wf(),
            final(self)@ == old(self)@.disseminate_all().state,
            queue_view(final(queue)) == queue_view(old(queue)) + old(self)@.disseminate_all().events,
            r == old(self)@.disseminate_all().result,
            final(self)@.router_id == old(self)@.router_id,
    {
        let ghost start = old(self)@;
        let ghost mut sent: Seq<EventView> = Seq::empty();
        assert(queue_view(queue) =~= queue_view(old(queue)) + sent);
        let mut k: usize = 0;
        while k < self.bgp_known_prefixes.len()
            invariant
                k <= self.bgp_known_prefixes.len(),
                start == old(self)@,
                self.wf(),
                self@.known_prefixes == start.known_prefixes,
                self@.router_id == start.router_id,
                start.disseminate_all_upto(k as int) == (Outcome {
                    state: self@,
                    events: sent,
                    result: Ok(()),
                }),
                queue_view(queue) == queue_view(old(queue)) + sent,
            decreases self.bgp_known_prefixes.len() - k,
        {
            let prefix = self.bgp_known_prefixes[k];
            let ghost step = self@.disseminate(prefix);
            assert(self@.known_prefixes[k as int] == prefix);
            let ghost queue_before = queue_view(queue);
            let done = self.run_bgp_route_dissemination_for_prefix(prefix, queue);
            proof {
                assert(queue_before + step.events =~= queue_view(old(queue)) + (sent + step.events));
                sent = sent + step.events;
            }
            match done {
                Ok(()) => {},
                Err(e) => {
                    proof {
                        start.lemma_disseminate_all_upto_err(
                            k + 1,
                            start.known_prefixes.len() as int,
                        );
                    }
                    return Err(e);
                },
            }
            k = k + 1;
        }
        Ok(())
    }

    /// The IGP next hop towards the prefix, if there is a selected route whose next hop
    /// is reachable.
    pub fn get_next_hop(&self, prefix: Prefix) -> (r: Option<RouterId>)
        ensures
            r == self@.next_hop(prefix),
    {
        match self.bgp_rib.get(&prefix.0) {
            Some(entry) => match self.igp_forwarding_table.get(&entry.route.next_hop) {
                Some(target) => match target {
                    Some(hop) => Some(hop.0),
                    None => None,
                },
                None => None,
            },
            None => None,
        }
    }

    /// The processed entries known for the prefix, in the order of the sessions.
    pub fn get_known_bgp_routes(&self, prefix: Prefix) -> (r: Result<Vec<RIBEntry>, DeviceError>)
        ensures
            match self@.known_routes(prefix) {
                Ok(routes) => r is Ok && entries_view(r->Ok_0@) == routes,
                Err(e) => r is Err && r->Err_0 == e,
            },
    {
        let mut entries: Vec<RIBEntry> = Vec::new();
        assert(entries_view(entries@) =~= Seq::empty());
        let mut i: usize = 0;
        while i < self.sessions.len()
            invariant
                i <= self.sessions.len(),
                self@.known_routes_upto(prefix, i as int) == Ok::<Seq<RibEntryView>, DeviceError>(
                    entries_view(entries@),
                ),
            decreases self.sessions.len() - i,
        {
            let key = make_key(prefix, self.sessions[i].0);
            match self.bgp_rib_in.get(&key) {
                None => {},
                Some(e) => match self.process_bgp_rib_in_route(e) {
                    Ok(entry) => {
                        assert(entries_view(entries@.push(entry)) =~= entries_view(entries@).push(
                            entry@,
                        ));
                        entries.push(entry);
                    },
                    Err(e) => {
                        proof {
                            self@.lemma_known_routes_upto_err(
                                prefix,
                                i + 1,
                                self.sessions.len() as int,
                            );
                        }
                        return Err(e);
                    },
                },
            }
            i = i + 1;
        }
        Ok(entries)
    }

    /// The selected entry of the prefix, if any.
    pub fn get_selected_bgp_route(&self, prefix: Prefix) -> (r: Option<RIBEntry>)
        ensures
            entry_view(r) == (if self@.rib.contains_key(prefix) {
                Some(self@.rib[prefix])
            } else {
                None
            }),
    {
        match self.bgp_rib.get(&prefix.0) {
            Some(e) => Some(e.clone()),
            None => None,
        }
    }
}

/// Storing any entry under the key of a pair stores it for that pair.
proof fn lemma_rib_insert_any(m: Map<u64, RIBEntry>, prefix: Prefix, peer: RouterId)
    ensures
        forall|e: RIBEntry| #[trigger]
            rib_by_neighbor(m.insert(rib_key(prefix, peer), e)) == rib_by_neighbor(m).insert(
                (prefix, peer),
                e@,
            ),
{
    assert forall|e: RIBEntry| #[trigger]
        rib_by_neighbor(m.insert(rib_key(prefix, peer), e)) == rib_by_neighbor(m).insert(
            (prefix, peer),
            e@,
        ) by {
        lemma_rib_insert(m, prefix, peer, e);
    }
}

} // verus!
