//! What holds of the BGP process and of the driver, for all states and inputs.

use vstd::prelude::*;
use crate::bgp::{BgpEventView, BgpSessionType, RouteView};
use crate::event::EventView;
use crate::igp::table_for;
use crate::igp_theorems::{describes_shortest_paths, lemma_table_describes_shortest_paths};
use crate::net_state::{DeviceState, NetworkState};
use crate::rib::RibEntryView;
use crate::state::{purge_neighbor, Dissemination, PeerAction, RouterState};
use crate::types::{DeviceError, NetworkError, Prefix, RouterId};

verus! {

// ---------------------------------------------------------------------------------
// The decision order
// ---------------------------------------------------------------------------------

/// Absent optional attributes count as their defaults in every comparison: making
/// the defaults of a route explicit changes neither what it is equal to nor how its
/// entry ranks, and an empty AS path ranks as a path of length 0.
pub proof fn lemma_defaults_are_implicit(a: RibEntryView, b: RibEntryView)
    ensures
        a.route.with_defaults().local_pref == Some(a.route.local_pref_or_default()),
        a.route.with_defaults().med == Some(a.route.med_or_default()),
        a.route.local_pref is None ==> a.route.local_pref_or_default() == 100,
        a.route.med is None ==> a.route.med_or_default() == 0,
        a.route.with_defaults().same_route(a.route),
        a.route.with_defaults().same_route(b.route) == a.route.same_route(b.route),
        b.route.same_route(a.route.with_defaults()) == b.route.same_route(a.route),
        (RibEntryView { route: a.route.with_defaults(), ..a }).preferred_over(b)
            == a.preferred_over(b),
        b.preferred_over(RibEntryView { route: a.route.with_defaults(), ..a })
            == b.preferred_over(a),
        a.route.as_path.len() == 0 && b.route.as_path.len() > 0
            && a.route.local_pref_or_default() == b.route.local_pref_or_default()
            ==> a.preferred_over(b),
{
}

/// The decision order is a strict total order on entries that carry an IGP cost:
/// no entry is preferred over itself, preference is transitive, and of two entries
/// one is preferred unless all seven criteria tie, which happens only for entries
/// with the same neighbor.
pub proof fn lemma_order_is_strict_total(a: RibEntryView, b: RibEntryView, c: RibEntryView)
    requires
        a.igp_cost is Some,
        b.igp_cost is Some,
        c.igp_cost is Some,
    ensures
        !a.preferred_over(a),
        !(a.preferred_over(b) && b.preferred_over(a)),
        a.preferred_over(b) && b.preferred_over(c) ==> a.preferred_over(c),
        a.preferred_over(b) || b.preferred_over(a) || a.ranks_equal(b),
        a.ranks_equal(b) ==> a.from_id == b.from_id && !a.preferred_over(b),
        a.ranks_equal(b) && b.preferred_over(c) ==> a.preferred_over(c),
        a.preferred_over(b) && b.ranks_equal(c) ==> a.preferred_over(c),
{
}

// ---------------------------------------------------------------------------------
// The decision process
// ---------------------------------------------------------------------------------

impl RouterState {
    /// The candidates for `prefix`: the processed forms of the entries received.
    pub open spec fn is_candidate(self, prefix: Prefix, c: RibEntryView) -> bool {
        exists|n: RouterId| #[trigger]
            self.rib_in.contains_key((prefix, n)) && self.process_in(self.rib_in[(prefix, n)])
                == Ok::<RibEntryView, DeviceError>(c)
    }

    /// The fold of the decision process over the first `k` sessions finds the
    /// maximum of the candidates among them.
    proof fn lemma_best_upto(self, prefix: Prefix, k: int)
        requires
            0 <= k <= self.sessions.len(),
            self.best_upto(prefix, k) is Ok,
        ensures
            forall|i: int|
                0 <= i < k && #[trigger] self.rib_in.contains_key((prefix, self.sessions[i].0))
                    ==> {
                    &&& self.process_in(self.rib_in[(prefix, self.sessions[i].0)]) is Ok
                    &&& self.best_upto(prefix, k)->Ok_0 is Some
                    &&& !self.process_in(
                        self.rib_in[(prefix, self.sessions[i].0)],
                    )->Ok_0.preferred_over(self.best_upto(prefix, k)->Ok_0->Some_0)
                },
            self.best_upto(prefix, k)->Ok_0 matches Some(b) ==> b.igp_cost is Some && exists|
                i: int,
            |
                0 <= i < k && #[trigger] self.rib_in.contains_key((prefix, self.sessions[i].0))
                    && self.process_in(self.rib_in[(prefix, self.sessions[i].0)]) == Ok::<
                    RibEntryView,
                    crate::types::DeviceError,
                >(b),
        decreases k,
    {
        if k > 0 {
            self.lemma_best_upto(prefix, k - 1);
            let prev = self.best_upto(prefix, k - 1)->Ok_0;
            let now = self.best_upto(prefix, k)->Ok_0;
            let key = (prefix, self.sessions[k - 1].0);
            if self.rib_in.contains_key(key) {
                let c = self.process_in(self.rib_in[key])->Ok_0;
                assert(c.igp_cost is Some);
                assert forall|i: int|
                    0 <= i < k && #[trigger] self.rib_in.contains_key(
                        (prefix, self.sessions[i].0),
                    ) implies {
                    &&& self.process_in(self.rib_in[(prefix, self.sessions[i].0)]) is Ok
                    &&& now is Some
                    &&& !self.process_in(
                        self.rib_in[(prefix, self.sessions[i].0)],
                    )->Ok_0.preferred_over(now->Some_0)
                } by {
                    if i < k - 1 {
                        let x = self.process_in(self.rib_in[(prefix, self.sessions[i].0)])->Ok_0;
                        lemma_order_is_strict_total(x, c, prev->Some_0);
                    } else {
                        lemma_order_is_strict_total(c, c, c);
                        if prev is Some {
                            lemma_order_is_strict_total(c, prev->Some_0, c);
                        }
                    }
                }
                if now == Some(c) {
                    assert(self.rib_in.contains_key((prefix, self.sessions[k - 1].0)));
                } else {
                    let i = choose|i: int|
                        0 <= i < k - 1 && #[trigger] self.rib_in.contains_key(
                            (prefix, self.sessions[i].0),
                        ) && self.process_in(self.rib_in[(prefix, self.sessions[i].0)]) == Ok::<
                            RibEntryView,
                            crate::types::DeviceError,
                        >(now->Some_0);
                    assert(self.rib_in.contains_key((prefix, self.sessions[i].0)));
                }
            } else {
                if now is Some {
                    let i = choose|i: int|
                        0 <= i < k - 1 && #[trigger] self.rib_in.contains_key(
                            (prefix, self.sessions[i].0),
                        ) && self.process_in(self.rib_in[(prefix, self.sessions[i].0)]) == Ok::<
                            RibEntryView,
                            crate::types::DeviceError,
                        >(now->Some_0);
                    assert(self.rib_in.contains_key((prefix, self.sessions[i].0)));
                }
            }
        }
    }

    /// The winner of the decision process is the maximum of the candidates: it is the
    /// processed form of a received entry, and no candidate is preferred over it.
    /// There is no winner exactly when nothing was received for the prefix.
    pub proof fn lemma_best_route_is_maximum(self, prefix: Prefix)
        requires
            self.wf(),
            self.best_route(prefix) is Ok,
        ensures
            self.best_route(prefix)->Ok_0 matches Some(b) ==> self.is_candidate(prefix, b),
            forall|c: RibEntryView| #[trigger]
                self.is_candidate(prefix, c) ==> self.best_route(prefix)->Ok_0 is Some
                    && !c.preferred_over(self.best_route(prefix)->Ok_0->Some_0),
            self.best_route(prefix)->Ok_0 is None <==> forall|n: RouterId|
                !self.rib_in.contains_key((prefix, n)),
    {
        self.lemma_best_upto(prefix, self.sessions.len() as int);
        let best = self.best_route(prefix)->Ok_0;
        if best is Some {
            let i = choose|i: int|
                0 <= i < self.sessions.len() && #[trigger] self.rib_in.contains_key(
                    (prefix, self.sessions[i].0),
                ) && self.process_in(self.rib_in[(prefix, self.sessions[i].0)]) == Ok::<
                    RibEntryView,
                    crate::types::DeviceError,
                >(best->Some_0);
            assert(self.rib_in.contains_key((prefix, self.sessions[i].0)));
        }
        assert forall|c: RibEntryView| #[trigger] self.is_candidate(prefix, c) implies best is Some
            && !c.preferred_over(best->Some_0) by {
            let n = choose|n: RouterId| #[trigger]
                self.rib_in.contains_key((prefix, n)) && self.process_in(self.rib_in[(prefix, n)])
                    == Ok::<RibEntryView, DeviceError>(c);
            assert(self.rib_in.contains_key((prefix, n)));
            assert(self.has_session(n));
            let i = self.session_index(n);
            assert(self.sessions[i].0 == n);
            assert(self.rib_in.contains_key((prefix, self.sessions[i].0)));
        }
        if best is None {
            assert forall|n: RouterId| !self.rib_in.contains_key((prefix, n)) by {
                if self.rib_in.contains_key((prefix, n)) {
                    assert(self.has_session(n));
                    let i = self.session_index(n);
                    assert(self.sessions[i].0 == n);
                    assert(self.rib_in.contains_key((prefix, self.sessions[i].0)));
                }
            }
        }
    }

    /// A selected entry that is the winner of the decision process is the maximum of
    /// what was received: it is there exactly when something was received for the
    /// prefix, it is the processed form of a received entry, and the processed form of
    /// no received entry is preferred over it.
    pub proof fn lemma_selected_is_maximum(self, prefix: Prefix)
        requires
            self.wf(),
            self.selected_is_best(prefix),
        ensures
            self.rib.contains_key(prefix) <==> exists|n: RouterId|
                self.rib_in.contains_key((prefix, n)),
            self.rib.contains_key(prefix) ==> self.is_candidate(prefix, self.rib[prefix]),
            self.rib.contains_key(prefix) ==> forall|c: RibEntryView| #[trigger]
                self.is_candidate(prefix, c) ==> !c.preferred_over(self.rib[prefix]),
    {
        self.lemma_best_route_is_maximum(prefix);
        let best = self.best_route(prefix)->Ok_0;
        if best is Some {
            let b = best->Some_0;
            assert(self.is_candidate(prefix, b));
            let n = choose|n: RouterId| #[trigger]
                self.rib_in.contains_key((prefix, n)) && self.process_in(self.rib_in[(prefix, n)])
                    == Ok::<RibEntryView, DeviceError>(b);
            assert(self.rib_in.contains_key((prefix, n)));
        }
    }

    /// A selected entry that is the winner of the decision process resolves: it was
    /// learned over a current session of the kind it records. Learned over eBGP, its
    /// next hop is that neighbor, at IGP cost 0. Learned over iBGP, its next hop has a
    /// reachable entry in the IGP table, and the entry carries the cost of that entry.
    pub proof fn lemma_selected_next_hop_resolves(self, prefix: Prefix)
        requires
            self.wf(),
            self.selected_is_best(prefix),
            self.rib.contains_key(prefix),
        ensures
            ({
                let e = self.rib[prefix];
                &&& e.route.prefix == prefix
                &&& self.session_type(e.from_id) == Some(e.from_type)
                &&& e.from_type.is_ebgp() ==> e.route.next_hop == e.from_id && e.igp_cost == Some(
                    0u64,
                )
                &&& e.from_type.is_ibgp() ==> {
                    &&& self.igp.contains_key(e.route.next_hop)
                    &&& self.igp[e.route.next_hop] is Some
                    &&& e.igp_cost == Some(self.igp[e.route.next_hop]->Some_0.1)
                }
            }),
    {
        self.lemma_selected_is_maximum(prefix);
        let e = self.rib[prefix];
        let n = choose|n: RouterId| #[trigger]
            self.rib_in.contains_key((prefix, n)) && self.process_in(self.rib_in[(prefix, n)])
                == Ok::<RibEntryView, DeviceError>(e);
        assert(self.rib_in.contains_key((prefix, n)));
    }

    /// The decision process for a prefix selects the winner, and touches nothing but
    /// the selection of that prefix.
    pub proof fn lemma_decide_selects_best(self, prefix: Prefix)
        requires
            self.decide(prefix) is Ok,
        ensures
            self.decide(prefix)->Ok_0.selected_is_best(prefix),
            self.decide(prefix)->Ok_0.best_route(prefix) == self.best_route(prefix),
            self.decide(prefix)->Ok_0 == (RouterState {
                rib: self.decide(prefix)->Ok_0.rib,
                ..self
            }),
            forall|p: Prefix|
                p != prefix ==> (#[trigger] self.decide(prefix)->Ok_0.rib.contains_key(p)
                    == self.rib.contains_key(p)) && self.decide(prefix)->Ok_0.rib[p]
                    == self.rib[p],
    {
        let after = self.decide(prefix)->Ok_0;
        after.lemma_best_upto_depends(self, prefix, self.sessions.len() as int);
    }

    proof fn lemma_decide_upto_selects_best(self, k: int)
        requires
            self.known_prefixes.no_duplicates(),
            0 <= k <= self.known_prefixes.len(),
            self.decide_upto(k).1 is Ok,
        ensures
            self.decide_upto(k).0 == (RouterState { rib: self.decide_upto(k).0.rib, ..self }),
            forall|j: int|
                0 <= j < k ==> self.decide_upto(k).0.selected_is_best(
                    #[trigger] self.known_prefixes[j],
                ),
        decreases k,
    {
        if k > 0 {
            let prev = self.decide_upto(k - 1);
            if prev.1 is Err {
                self.lemma_decide_upto_err(k - 1, k);
            }
            self.lemma_decide_upto_selects_best(k - 1);
            let prefix = self.known_prefixes[k - 1];
            prev.0.lemma_decide_selects_best(prefix);
            let after = self.decide_upto(k).0;
            assert(after == prev.0.decide(prefix)->Ok_0);
            assert forall|j: int| 0 <= j < k implies after.selected_is_best(
                #[trigger] self.known_prefixes[j],
            ) by {
                let p = self.known_prefixes[j];
                if j < k - 1 {
                    assert(p != prefix);
                    assert(prev.0.selected_is_best(p));
                    after.lemma_best_upto_depends(prev.0, p, self.sessions.len() as int);
                }
            }
        }
    }

    /// After the decision process for all known prefixes, the selected entry of every
    /// known prefix is the winner of the decision process, and nothing but the
    /// selection has changed.
    pub proof fn lemma_decide_all_selects_best(self)
        requires
            self.wf(),
            self.decide_all().1 is Ok,
        ensures
            self.decide_all().0 == (RouterState { rib: self.decide_all().0.rib, ..self }),
            forall|p: Prefix|
                self.known_prefixes.contains(p) ==> #[trigger] self.decide_all().0.selected_is_best(
                    p,
                ),
    {
        self.lemma_decide_upto_selects_best(self.known_prefixes.len() as int);
        assert forall|p: Prefix| self.known_prefixes.contains(p) implies #[trigger] self.decide_all().0.selected_is_best(
            p,
        ) by {
            let j = choose|j: int| 0 <= j < self.known_prefixes.len() && self.known_prefixes[j] == p;
            assert(self.decide_all().0.selected_is_best(self.known_prefixes[j]));
        }
    }

    /// Handling a message that is addressed to this router selects the winner for the
    /// prefix of the message, unless the message is refused or the decision fails.
    pub proof fn lemma_handle_event_selects_best(self, event: EventView)
        requires
            addressee(event) == self.router_id,
            self.handle_event(event).result is Ok,
        ensures
            self.handle_event(event).state.selected_is_best(event_prefix(event)),
    {
        let prefix = event_prefix(event);
        let learned = match event {
            EventView::Bgp(from, _, BgpEventView::Update(route)) => self.insert_route(
                route,
                from,
            )->Ok_0.learn_prefix(prefix),
            EventView::Bgp(from, _, BgpEventView::Withdraw(_)) => self.remove_route(
                prefix,
                from,
            ).learn_prefix(prefix),
        };
        assert(self.handle_event(event) == learned.update_prefix(prefix));
        learned.lemma_decide_selects_best(prefix);
        let decided = learned.decide(prefix)->Ok_0;
        let after = self.handle_event(event).state;
        assert(after == (RouterState { rib_out: after.rib_out, ..decided }));
        after.lemma_best_upto_depends(decided, prefix, decided.sessions.len() as int);
    }
}

/// The prefix that a message is about.
pub open spec fn event_prefix(event: EventView) -> Prefix {
    match event {
        EventView::Bgp(_, _, BgpEventView::Update(route)) => route.prefix,
        EventView::Bgp(_, _, BgpEventView::Withdraw(prefix)) => prefix,
    }
}

// ---------------------------------------------------------------------------------
// Dissemination
// ---------------------------------------------------------------------------------

/// The device an event is addressed to.
pub open spec fn addressee(event: EventView) -> RouterId {
    match event {
        EventView::Bgp(_, to, _) => to,
    }
}

impl RouterState {
    /// What an emitted message says of the RIB-out it leaves: the message comes from
    /// this router. An UPDATE carries the route now recorded for its addressee, which
    /// is not the entry that was recorded before and which the export filter lets
    /// pass. A WITHDRAW is for the prefix, where an entry was recorded before and none
    /// is now.
    pub open spec fn records(
        self,
        prefix: Prefix,
        after: Map<(Prefix, RouterId), RibEntryView>,
        event: EventView,
    ) -> bool {
        match event {
            EventView::Bgp(from, to, BgpEventView::Update(route)) => {
                &&& from == self.router_id
                &&& after.contains_key((prefix, to))
                &&& after[(prefix, to)].route == route
                &&& !(self.rib_out.contains_key((prefix, to)) && after[(prefix, to)].same_entry(
                    self.rib_out[(prefix, to)],
                ))
                &&& self.should_export(after[(prefix, to)].from_id, to) == Ok::<bool, DeviceError>(
                    true,
                )
            },
            EventView::Bgp(from, to, BgpEventView::Withdraw(withdrawn)) => {
                &&& from == self.router_id
                &&& withdrawn == prefix
                &&& self.rib_out.contains_key((prefix, to))
                &&& !after.contains_key((prefix, to))
            },
        }
    }

    /// No event of the list concerns the RIB-out entry `key` of `prefix`.
    pub open spec fn untouched(events: Seq<EventView>, prefix: Prefix, key: (Prefix, RouterId)) -> bool {
        key.0 != prefix || forall|j: int|
            0 <= j < events.len() ==> addressee(#[trigger] events[j]) != key.1
    }

    proof fn lemma_disseminate_upto_records(self, prefix: Prefix, k: int)
        requires
            self.sessions_unique(),
            0 <= k <= self.sessions.len(),
        ensures
            ({
                let d = self.disseminate_upto(prefix, k);
                &&& forall|j: int|
                    0 <= j < d.events.len() ==> self.records(prefix, d.rib_out, #[trigger] d.events[j])
                        && exists|i: int|
                        0 <= i < k && (#[trigger] self.sessions[i]).0 == addressee(d.events[j])
                &&& forall|i: int, j: int|
                    0 <= i < j < d.events.len() ==> addressee(#[trigger] d.events[i]) != addressee(
                        #[trigger] d.events[j],
                    )
                &&& forall|key: (Prefix, RouterId)|
                    Self::untouched(d.events, prefix, key) ==> (#[trigger] d.rib_out.contains_key(
                        key,
                    ) == self.rib_out.contains_key(key)) && (d.rib_out.contains_key(key)
                        ==> d.rib_out[key] == self.rib_out[key])
            }),
        decreases k,
    {
        if k > 0 {
            self.lemma_disseminate_upto_records(prefix, k - 1);
            let prev = self.disseminate_upto(prefix, k - 1);
            let d = self.disseminate_upto(prefix, k);
            let peer = self.sessions[k - 1].0;
            let key = (prefix, peer);
            // no earlier event is addressed to this peer
            assert forall|j: int| 0 <= j < prev.events.len() implies addressee(
                #[trigger] prev.events[j],
            ) != peer by {
                let i = choose|i: int|
                    0 <= i < k - 1 && (#[trigger] self.sessions[i]).0 == addressee(prev.events[j]);
                assert(self.sessions[i].0 != self.sessions[k - 1].0);
            }
            assert(Self::untouched(prev.events, prefix, key));
            assert(prev.rib_out.contains_key(key) == self.rib_out.contains_key(key));
            if prev.error is None {
                let action = (RouterState { rib_out: prev.rib_out, ..self }).peer_action(
                    prefix,
                    peer,
                );
                assert forall|j: int| 0 <= j < d.events.len() implies self.records(
                    prefix,
                    d.rib_out,
                    #[trigger] d.events[j],
                ) && exists|i: int|
                    0 <= i < k && (#[trigger] self.sessions[i]).0 == addressee(d.events[j]) by {
                    if j < prev.events.len() {
                        assert(d.events[j] == prev.events[j]);
                        assert(self.records(prefix, prev.rib_out, prev.events[j]));
                        let i = choose|i: int|
                            0 <= i < k - 1 && (#[trigger] self.sessions[i]).0 == addressee(
                                prev.events[j],
                            );
                        assert(self.sessions[i].0 == addressee(d.events[j]));
                        assert(addressee(prev.events[j]) != peer);
                    } else {
                        assert(self.sessions[k - 1].0 == addressee(d.events[j]));
                    }
                }
                assert forall|i: int, j: int| 0 <= i < j < d.events.len() implies addressee(
                    #[trigger] d.events[i],
                ) != addressee(#[trigger] d.events[j]) by {
                    if j < prev.events.len() {
                        assert(d.events[i] == prev.events[i] && d.events[j] == prev.events[j]);
                    } else {
                        assert(d.events[i] == prev.events[i]);
                        assert(addressee(prev.events[i]) != peer);
                    }
                }
                assert forall|other: (Prefix, RouterId)|
                    Self::untouched(d.events, prefix, other) implies (
                #[trigger] d.rib_out.contains_key(other) == self.rib_out.contains_key(other)) && (
                d.rib_out.contains_key(other) ==> d.rib_out[other] == self.rib_out[other]) by {
                    if other.0 == prefix {
                        assert forall|j: int| 0 <= j < prev.events.len() implies addressee(
                            #[trigger] prev.events[j],
                        ) != other.1 by {
                            assert(d.events[j] == prev.events[j]);
                        }
                        if d.events.len() > prev.events.len() {
                            assert(addressee(d.events[prev.events.len() as int]) == peer);
                            assert(other != key);
                        }
                    }
                    assert(Self::untouched(prev.events, prefix, other));
                    assert(prev.rib_out.contains_key(other) == self.rib_out.contains_key(other));
                }
            }
        }
    }

    /// RIB-out records what was said last. Of the messages that dissemination emits
    /// for a prefix, each comes from this router and goes to a neighbor with a session,
    /// no two go to the same neighbor, an UPDATE carries the route then recorded for its
    /// neighbor, replaces what was recorded before by a different entry and passes the
    /// export filter, and a WITHDRAW removes a recorded entry. The entry of a neighbor
    /// that gets no message stays as it was, and so does every entry of another prefix.
    pub proof fn lemma_rib_out_records_messages(self, prefix: Prefix)
        requires
            self.sessions_unique(),
        ensures
            ({
                let o = self.disseminate(prefix);
                &&& forall|j: int|
                    0 <= j < o.events.len() ==> self.records(
                        prefix,
                        o.state.rib_out,
                        #[trigger] o.events[j],
                    ) && self.has_session(addressee(o.events[j]))
                &&& forall|i: int, j: int|
                    0 <= i < j < o.events.len() ==> addressee(#[trigger] o.events[i]) != addressee(
                        #[trigger] o.events[j],
                    )
                &&& forall|key: (Prefix, RouterId)|
                    Self::untouched(o.events, prefix, key) ==> (
                    #[trigger] o.state.rib_out.contains_key(key) == self.rib_out.contains_key(key))
                        && (o.state.rib_out.contains_key(key) ==> o.state.rib_out[key]
                        == self.rib_out[key])
            }),
    {
        self.lemma_disseminate_upto_records(prefix, self.sessions.len() as int);
        let d = self.disseminate_upto(prefix, self.sessions.len() as int);
        assert forall|j: int| 0 <= j < d.events.len() implies self.has_session(
            addressee(#[trigger] d.events[j]),
        ) by {
            let i = choose|i: int|
                0 <= i < self.sessions.len() && (#[trigger] self.sessions[i]).0 == addressee(
                    d.events[j],
                );
            assert(self.sessions[i].0 == addressee(d.events[j]));
        }
    }

    /// What a router says when it handles a message is what it then has on record:
    /// the statement on the messages of a dissemination holds of the messages that
    /// handling an event emits, with the RIB-out before and after the event.
    pub proof fn lemma_handle_event_records_messages(self, event: EventView)
        requires
            self.wf(),
        ensures
            ({
                let o = self.handle_event(event);
                let prefix = event_prefix(event);
                &&& forall|j: int|
                    0 <= j < o.events.len() ==> self.records(
                        prefix,
                        o.state.rib_out,
                        #[trigger] o.events[j],
                    ) && self.has_session(addressee(o.events[j]))
                &&& forall|i: int, j: int|
                    0 <= i < j < o.events.len() ==> addressee(#[trigger] o.events[i]) != addressee(
                        #[trigger] o.events[j],
                    )
                &&& forall|key: (Prefix, RouterId)|
                    Self::untouched(o.events, prefix, key) ==> (
                    #[trigger] o.state.rib_out.contains_key(key) == self.rib_out.contains_key(key))
                        && (o.state.rib_out.contains_key(key) ==> o.state.rib_out[key]
                        == self.rib_out[key])
            }),
    {
        let o = self.handle_event(event);
        let prefix = event_prefix(event);
        if addressee(event) == self.router_id {
            let received = match event {
                EventView::Bgp(from, _, BgpEventView::Update(route)) => self.insert_route(route, from),
                EventView::Bgp(from, _, BgpEventView::Withdraw(_)) => Ok(
                    self.remove_route(prefix, from),
                ),
            };
            if received is Ok {
                let learned = received->Ok_0.learn_prefix(prefix);
                assert(o == learned.update_prefix(prefix));
                if learned.decide(prefix) is Ok {
                    let decided = learned.decide(prefix)->Ok_0;
                    assert(decided.sessions == self.sessions);
                    assert(decided.rib_out == self.rib_out);
                    assert(decided.no_export == self.no_export);
                    assert(decided.router_id == self.router_id);
                    decided.lemma_rib_out_records_messages(prefix);
                    assert(o == decided.disseminate(prefix));
                    assert forall|j: int| 0 <= j < o.events.len() implies self.records(
                        prefix,
                        o.state.rib_out,
                        #[trigger] o.events[j],
                    ) && self.has_session(addressee(o.events[j])) by {
                        assert(decided.records(prefix, o.state.rib_out, o.events[j]));
                        assert(decided.has_session(addressee(o.events[j])));
                        let to = addressee(o.events[j]);
                        if o.state.rib_out.contains_key((prefix, to)) {
                            let from = o.state.rib_out[(prefix, to)].from_id;
                            assert(decided.should_export(from, to) == self.should_export(from, to));
                        }
                    }
                }
            }
        }
    }

    // -----------------------------------------------------------------------------
    // Sessions and messages that cancel each other
    // -----------------------------------------------------------------------------

    /// Closing a session and establishing it again with the same kind brings back the
    /// same sessions, with the reopened one last. The selected routes, the known
    /// prefixes, the IGP table and the policies are untouched; of RIB-in and RIB-out
    /// exactly the entries of that neighbor are gone.
    pub proof fn lemma_reopened_session(self, peer: RouterId)
        requires
            self.wf(),
            self.has_session(peer),
        ensures
            ({
                let kind = self.session_type(peer)->Some_0;
                let closed = self.close_session(peer)->Ok_0;
                let reopened = closed.establish_session(peer, kind);
                &&& self.close_session(peer) is Ok
                &&& reopened is Ok
                &&& reopened->Ok_0.wf()
                &&& forall|n: RouterId| #[trigger]
                    reopened->Ok_0.session_type(n) == self.session_type(n)
                &&& reopened->Ok_0 == (RouterState {
                    sessions: reopened->Ok_0.sessions,
                    rib_in: purge_neighbor(self.rib_in, peer),
                    rib_out: purge_neighbor(self.rib_out, peer),
                    ..self
                })
            }),
    {
        let kind = self.session_type(peer)->Some_0;
        self.lemma_close_wf(peer);
        let closed = self.close_session(peer)->Ok_0;
        closed.lemma_establish_wf(peer, kind);
    }

    /// The winner of the decision process depends on the sessions, on what was
    /// received, on the IGP table and on the local-preference policy alone.
    pub proof fn lemma_best_upto_depends(self, other: RouterState, prefix: Prefix, k: int)
        requires
            self.sessions == other.sessions,
            self.rib_in == other.rib_in,
            self.igp == other.igp,
            self.local_pref_policy == other.local_pref_policy,
        ensures
            self.best_upto(prefix, k) == other.best_upto(prefix, k),
        decreases k,
    {
        if k > 0 {
            self.lemma_best_upto_depends(other, prefix, k - 1);
        }
    }

    /// An UPDATE followed by a WITHDRAW of the same neighbor for the same prefix
    /// restores RIB-in, where the neighbor had sent nothing for the prefix before:
    /// whatever was received is what it was, whether or not the decision process
    /// failed on the way, and the decision process then has the winner it had before
    /// the UPDATE. Where that winner was selected before, and the WITHDRAW is handled
    /// without error, the selected routes are what they were.
    pub proof fn lemma_update_then_withdraw(self, route: RouteView, from: RouterId)
        requires
            self.wf(),
            self.has_session(from),
            !self.rib_in.contains_key((route.prefix, from)),
        ensures
            ({
                let update = EventView::Bgp(from, self.router_id, BgpEventView::Update(route));
                let withdraw = EventView::Bgp(
                    from,
                    self.router_id,
                    BgpEventView::Withdraw(route.prefix),
                );
                let after = self.handle_event(update).state.handle_event(withdraw).state;
                &&& after.rib_in == self.rib_in
                &&& after.sessions == self.sessions
                &&& after.known_prefixes == self.learn_prefix(route.prefix).known_prefixes
                &&& after.best_route(route.prefix) == self.best_route(route.prefix)
                &&& self.selected_is_best(route.prefix) && self.handle_event(update).state.handle_event(
                    withdraw,
                ).result is Ok ==> after.rib == self.rib
            }),
    {
        let update = EventView::Bgp(from, self.router_id, BgpEventView::Update(route));
        let withdraw = EventView::Bgp(from, self.router_id, BgpEventView::Withdraw(route.prefix));
        let inserted = self.insert_route(route, from)->Ok_0;
        let learned = inserted.learn_prefix(route.prefix);
        let mid = self.handle_event(update).state;
        assert(mid == learned.update_prefix(route.prefix).state);
        assert(mid.rib_in == inserted.rib_in && mid.sessions == self.sessions
            && mid.known_prefixes == learned.known_prefixes && mid.igp == self.igp
            && mid.local_pref_policy == self.local_pref_policy && mid.router_id
            == self.router_id);
        let removed = mid.remove_route(route.prefix, from);
        assert(removed.rib_in =~= self.rib_in);
        let relearned = removed.learn_prefix(route.prefix);
        assert(learned.known_prefixes.contains(route.prefix)) by {
            if !inserted.known_prefixes.contains(route.prefix) {
                assert(learned.known_prefixes[inserted.known_prefixes.len() as int]
                    == route.prefix);
            }
        }
        assert(relearned == removed);
        let after = mid.handle_event(withdraw).state;
        assert(after == removed.update_prefix(route.prefix).state);
        assert(after.rib_in == self.rib_in && after.sessions == self.sessions && after.igp
            == self.igp && after.local_pref_policy == self.local_pref_policy);
        after.lemma_best_upto_depends(self, route.prefix, self.sessions.len() as int);
        if self.selected_is_best(route.prefix) && mid.handle_event(withdraw).result is Ok {
            mid.lemma_handle_event_selects_best(withdraw);
            if learned.decide(route.prefix) is Ok {
                learned.lemma_decide_selects_best(route.prefix);
            }
            removed.lemma_decide_selects_best(route.prefix);
            assert forall|p: Prefix| p != route.prefix implies (#[trigger] after.rib.contains_key(p)
                == self.rib.contains_key(p)) && after.rib[p] == self.rib[p] by {
                assert(mid.rib.contains_key(p) == self.rib.contains_key(p));
                assert(mid.rib[p] == self.rib[p]);
            }
            assert(after.rib =~= self.rib);
        }
    }
}

/// What the export filter lets pass: a route is never announced to the neighbor it was
/// learned from, never against the no-export policy, and never from one iBGP peer to
/// another.
pub proof fn lemma_export_filter(s: RouterState, from: RouterId, to: RouterId)
    requires
        s.should_export(from, to) == Ok::<bool, DeviceError>(true),
    ensures
        from != to,
        !s.no_export.contains((from, to)),
        s.has_session(from),
        s.has_session(to),
        !(s.session_type(from) == Some(BgpSessionType::IBgpPeer) && s.session_type(to) == Some(
            BgpSessionType::IBgpPeer,
        )),
{
}

// ---------------------------------------------------------------------------------
// The driver
// ---------------------------------------------------------------------------------

impl NetworkState {
    /// Driving the queue to convergence leaves it empty, and driving it again, under
    /// any cap, changes nothing and reports convergence again.
    pub proof fn lemma_converged_is_stable(self, budget: nat, again: nat)
        requires
            self.run(budget).1 == Ok::<bool, NetworkError>(true),
        ensures
            self.run(budget).0.queue.len() == 0,
            self.run(budget).0.run(again) == (self.run(budget).0, Ok::<bool, NetworkError>(true)),
        decreases budget,
    {
        if self.queue.len() != 0 && budget != 0 {
            let step = self.deliver_next();
            if step.1 is Ok {
                step.0.lemma_converged_is_stable((budget - 1) as nat, again);
            }
        }
    }

    /// A trace never runs out of hops: it ends at the latest when every router of the
    /// network is on the path, so that more fuel than there are routers left changes
    /// nothing.
    pub proof fn lemma_trace_fuel(self, current: RouterId, prefix: Prefix, walked: Seq<RouterId>, fuel: nat)
        requires
            walked.no_duplicates(),
            forall|i: int| 0 <= i < walked.len() ==> (#[trigger] walked[i]) < self.devices.len(),
            fuel + walked.len() >= self.devices.len(),
        ensures
            self.trace(current, prefix, walked, fuel) == self.trace(
                current,
                prefix,
                walked,
                fuel + 1,
            ),
        decreases fuel,
    {
        if current < self.devices.len() && self.devices[current as int] is Internal
            && !walked.contains(current) {
            let path = walked.push(current);
            assert forall|i: int, j: int|
                0 <= i < path.len() && 0 <= j < path.len() && i != j implies path[i]
                != path[j] by {
                if i == walked.len() {
                    assert(walked[j] == path[j]);
                } else if j == walked.len() {
                    assert(walked[i] == path[i]);
                } else {
                    assert(walked[i] != walked[j]);
                }
            }
            lemma_distinct_ids_bounded(path, self.devices.len());
            match self.router(current).next_hop(prefix) {
                Some(hop) => {
                    self.lemma_trace_fuel(hop, prefix, path, (fuel - 1) as nat);
                },
                None => {},
            }
        }
    }

    /// The device `i` after the first `k` devices had their turn at writing tables.
    pub open spec fn device_after_tables(self, k: int, i: int) -> DeviceState {
        if i < k && self.devices[i] is Internal {
            DeviceState::Internal(
                RouterState {
                    igp: table_for(self.devices.len(), self.links, i as RouterId)->Some_0,
                    ..self.devices[i]->Internal_0
                },
            )
        } else {
            self.devices[i]
        }
    }

    /// While the tables are written nothing but the tables changes: after the first
    /// `k` devices had their turn, every internal router among them holds the table
    /// derived from the topology, and every other device is as it was.
    proof fn lemma_write_all_upto(self, k: int)
        requires
            self.devices.len() <= u32::MAX,
            0 <= k <= self.devices.len(),
            self.write_all_upto(k).1 is Ok,
        ensures
            self.write_all_upto(k).0.devices.len() == self.devices.len(),
            self.write_all_upto(k).0.links == self.links,
            self.write_all_upto(k).0.queue == self.queue,
            self.write_all_upto(k).0.stop_after == self.stop_after,
            forall|i: int|
                0 <= i < self.devices.len() ==> #[trigger] self.write_all_upto(k).0.devices[i]
                    == self.device_after_tables(k, i),
            forall|i: int|
                0 <= i < k && (#[trigger] self.devices[i]) is Internal ==> table_for(
                    self.devices.len(),
                    self.links,
                    i as RouterId,
                ) is Some,
        decreases k,
    {
        if k > 0 {
            let prev = self.write_all_upto(k - 1);
            if prev.1 is Err {
                self.lemma_write_all_upto_err(k - 1, k);
            }
            self.lemma_write_all_upto(k - 1);
            let after = self.write_all_upto(k).0;
            let id = (k - 1) as RouterId;
            assert(prev.0.devices[k - 1] == self.device_after_tables(k - 1, k - 1));
            assert(prev.0.devices[k - 1] == self.devices[k - 1]);
            if self.is_internal(id) {
                assert(prev.0.is_internal(id));
                assert(after == prev.0.write_table(id).0);
                assert(table_for(prev.0.devices.len(), prev.0.links, id) is Some);
                assert forall|i: int| 0 <= i < self.devices.len() implies #[trigger] after.devices[i]
                    == self.device_after_tables(k, i) by {
                    if i != k - 1 {
                        assert(after.devices[i] == prev.0.devices[i]);
                        assert(prev.0.devices[i] == self.device_after_tables(k - 1, i));
                    }
                }
            } else {
                assert(after == prev.0);
                assert forall|i: int| 0 <= i < self.devices.len() implies #[trigger] after.devices[i]
                    == self.device_after_tables(k, i) by {
                    assert(prev.0.devices[i] == self.device_after_tables(k - 1, i));
                }
            }
        }
    }

    /// Writing the tables of all routers gives every internal router a table that
    /// describes the shortest paths of the topology from it, and changes nothing else.
    pub proof fn lemma_written_tables_describe_shortest_paths(self, id: RouterId)
        requires
            self.wf(),
            self.is_internal(id),
            self.write_igp_fw_tables(false).1 is Ok,
        ensures
            ({
                let after = self.write_igp_fw_tables(false).0;
                &&& after.is_internal(id)
                &&& after.router(id) == (RouterState {
                    igp: after.router(id).igp,
                    ..self.router(id)
                })
                &&& describes_shortest_paths(
                    self.devices.len(),
                    self.links,
                    id,
                    after.router(id).igp,
                )
                &&& after.links == self.links
                &&& after.queue == self.queue
            }),
    {
        let n = self.devices.len() as int;
        let written = self.write_all_upto(n);
        self.lemma_write_all_upto(n);
        assert(written.0.devices[id as int] == self.device_after_tables(n, id as int));
        assert(self.devices[id as int] is Internal);
        lemma_table_describes_shortest_paths(self.devices.len(), self.links, id);
    }

    /// Exceeding the cap leaves events pending.
    pub proof fn lemma_cap_leaves_queue(self, budget: nat)
        requires
            self.run(budget).1 == Ok::<bool, NetworkError>(false),
        ensures
            self.run(budget).0.queue.len() > 0,
        decreases budget,
    {
        if self.queue.len() != 0 && budget != 0 {
            let step = self.deliver_next();
            if step.1 is Ok {
                step.0.lemma_cap_leaves_queue((budget - 1) as nat);
            }
        }
    }
}

/// There are at most `bound` different ids below `bound`.
pub proof fn lemma_distinct_ids_bounded(ids: Seq<RouterId>, bound: nat)
    requires
        ids.no_duplicates(),
        forall|i: int| 0 <= i < ids.len() ==> (#[trigger] ids[i]) < bound,
    ensures
        ids.len() <= bound,
    decreases bound,
{
    if bound == 0 {
        if ids.len() > 0 {
            assert(ids[0] < bound);
        }
    } else {
        let top = (bound - 1) as RouterId;
        if ids.len() > 0 && bound - 1 <= u32::MAX && ids.contains(top) {
            let at = choose|i: int| 0 <= i < ids.len() && ids[i] == top;
            let rest = ids.remove(at);
            assert forall|i: int| 0 <= i < rest.len() implies (#[trigger] rest[i]) < bound - 1 by {
                let j = if i < at { i } else { i + 1 };
                assert(rest[i] == ids[j]);
                assert(ids[j] != ids[at]);
            }
            assert forall|i: int, j: int|
                0 <= i < rest.len() && 0 <= j < rest.len() && i != j implies rest[i]
                != rest[j] by {
                let a = if i < at { i } else { i + 1 };
                let b = if j < at { j } else { j + 1 };
                assert(ids[a] != ids[b]);
            }
            lemma_distinct_ids_bounded(rest, (bound - 1) as nat);
        } else {
            assert forall|i: int| 0 <= i < ids.len() implies (#[trigger] ids[i]) < bound - 1 by {
                if ids[i] == bound - 1 {
                    assert(ids.contains(top));
                }
            }
            lemma_distinct_ids_bounded(ids, (bound - 1) as nat);
        }
    }
}

} // verus!
