//! The invariant of a router is kept by every step of its BGP process.

use vstd::prelude::*;
use crate::bgp::BgpSessionType;
use crate::rib::RibEntryView;
use crate::state::{purge_neighbor, RouterState};
use crate::types::{Prefix, RouterId};

verus! {

impl RouterState {
    /// With one session per neighbor, the kind of a session is the kind listed at any
    /// position that names the neighbor.
    pub proof fn lemma_session_found(self, i: int)
        requires
            self.sessions_unique(),
            0 <= i < self.sessions.len(),
        ensures
            self.has_session(self.sessions[i].0),
            self.session_index(self.sessions[i].0) == i,
            self.session_type(self.sessions[i].0) == Some(self.sessions[i].1),
    {
        let peer = self.sessions[i].0;
        assert(self.has_session(peer));
        let k = self.session_index(peer);
        assert(self.sessions[k].0 == peer);
        if k < i {
            assert(self.sessions[k].0 != self.sessions[i].0);
        } else if i < k {
            assert(self.sessions[i].0 != self.sessions[k].0);
        }
    }

    /// Establishing a session keeps the invariant, and changes the kind of no other
    /// session.
    pub proof fn lemma_establish_wf(self, peer: RouterId, kind: BgpSessionType)
        requires
            self.wf(),
            !self.has_session(peer),
        ensures
            self.establish_session(peer, kind) is Ok,
            self.establish_session(peer, kind)->Ok_0.wf(),
            self.establish_session(peer, kind)->Ok_0.session_type(peer) == Some(kind),
            forall|other: RouterId|
                other != peer ==> #[trigger] self.establish_session(peer, kind)->Ok_0.session_type(
                    other,
                ) == self.session_type(other),
    {
        let s = self.establish_session(peer, kind)->Ok_0;
        let n = self.sessions.len() as int;
        assert(s.sessions.len() == n + 1);
        assert forall|i: int| 0 <= i < n implies #[trigger] s.sessions[i] == self.sessions[i] by {}
        assert(s.sessions[n] == (peer, kind));
        assert forall|i: int, j: int| 0 <= i < j < s.sessions.len() implies (
        #[trigger] s.sessions[i]).0 != (#[trigger] s.sessions[j]).0 by {
            if j < n {
                assert(self.sessions[i].0 != self.sessions[j].0);
            } else {
                assert(self.sessions[i].0 != peer);
            }
        }
        assert forall|other: RouterId| other != peer implies #[trigger] s.session_type(other)
            == self.session_type(other) by {
            if self.has_session(other) {
                let k = self.session_index(other);
                self.lemma_session_found(k);
                assert(s.sessions[k] == self.sessions[k]);
                s.lemma_session_found(k);
            } else {
                if s.has_session(other) {
                    let k = s.session_index(other);
                    assert(k < n);
                    assert(self.sessions[k].0 == other);
                }
            }
        }
        s.lemma_session_found(n);
        assert forall|k: (Prefix, RouterId)| #[trigger] s.rib_in.contains_key(k) implies {
            &&& s.known_prefixes.contains(k.0)
            &&& s.session_type(k.1) == Some(s.rib_in[k].from_type)
            &&& s.rib_in[k].from_id == k.1
            &&& s.rib_in[k].route.prefix == k.0
        } by {
            assert(self.rib_in.contains_key(k));
            assert(self.session_type(k.1) is Some);
            assert(k.1 != peer);
        }
        assert forall|k: (Prefix, RouterId)| #[trigger] s.rib_out.contains_key(k) implies {
            &&& s.known_prefixes.contains(k.0)
            &&& s.has_session(k.1)
        } by {
            assert(self.rib_out.contains_key(k));
            assert(self.has_session(k.1));
            assert(k.1 != peer);
            assert(s.session_type(k.1) == self.session_type(k.1));
        }
    }

    /// Closing a session keeps the invariant, ends the session, and changes the kind
    /// of no other session.
    pub proof fn lemma_close_wf(self, peer: RouterId)
        requires
            self.wf(),
            self.has_session(peer),
        ensures
            self.close_session(peer) is Ok,
            self.close_session(peer)->Ok_0.wf(),
            !self.close_session(peer)->Ok_0.has_session(peer),
            forall|other: RouterId|
                other != peer ==> #[trigger] self.close_session(peer)->Ok_0.session_type(other)
                    == self.session_type(other),
    {
        let s = self.close_session(peer)->Ok_0;
        let at = self.session_index(peer);
        let n = self.sessions.len() as int;
        assert(self.sessions[at].0 == peer);
        assert(s.sessions.len() == n - 1);
        assert forall|i: int| 0 <= i < n - 1 implies #[trigger] s.sessions[i] == self.sessions[if i
            < at {
            i
        } else {
            i + 1
        }] by {}
        assert forall|i: int, j: int| 0 <= i < j < s.sessions.len() implies (
        #[trigger] s.sessions[i]).0 != (#[trigger] s.sessions[j]).0 by {
            let a = if i < at { i } else { i + 1 };
            let b = if j < at { j } else { j + 1 };
            assert(self.sessions[a].0 != self.sessions[b].0);
        }
        if s.has_session(peer) {
            let k = s.session_index(peer);
            let a = if k < at { k } else { k + 1 };
            assert(self.sessions[a].0 == peer);
            self.lemma_session_found(a);
        }
        assert forall|other: RouterId| other != peer implies #[trigger] s.session_type(other)
            == self.session_type(other) by {
            if self.has_session(other) {
                let k = self.session_index(other);
                self.lemma_session_found(k);
                assert(k != at);
                let b = if k < at { k } else { k - 1 };
                assert(s.sessions[b] == self.sessions[k]);
                s.lemma_session_found(b);
            } else {
                if s.has_session(other) {
                    let k = s.session_index(other);
                    let a = if k < at { k } else { k + 1 };
                    assert(self.sessions[a].0 == other);
                }
            }
        }
        assert forall|k: (Prefix, RouterId)| #[trigger] s.rib_in.contains_key(k) implies {
            &&& s.known_prefixes.contains(k.0)
            &&& s.session_type(k.1) == Some(s.rib_in[k].from_type)
            &&& s.rib_in[k].from_id == k.1
            &&& s.rib_in[k].route.prefix == k.0
        } by {
            assert(self.rib_in.contains_key(k));
            assert(k.1 != peer);
        }
        assert forall|k: (Prefix, RouterId)| #[trigger] s.rib_out.contains_key(k) implies {
            &&& s.known_prefixes.contains(k.0)
            &&& s.has_session(k.1)
        } by {
            assert(self.rib_out.contains_key(k));
            assert(self.has_session(k.1));
            assert(k.1 != peer);
            assert(s.session_type(k.1) == self.session_type(k.1));
        }
    }
}

impl RouterState {
    /// An error met by the decision process among the first `k` sessions is its result.
    pub proof fn lemma_best_upto_err(self, prefix: Prefix, k: int, n: int)
        requires
            0 <= k <= n,
            self.best_upto(prefix, k) is Err,
        ensures
            self.best_upto(prefix, n) == self.best_upto(prefix, k),
        decreases n,
    {
        if n > k {
            self.lemma_best_upto_err(prefix, k, n - 1);
        }
    }

    /// An error met while listing the known routes of the first `k` sessions is the
    /// result for all sessions.
    pub proof fn lemma_known_routes_upto_err(self, prefix: Prefix, k: int, n: int)
        requires
            0 <= k <= n,
            self.known_routes_upto(prefix, k) is Err,
        ensures
            self.known_routes_upto(prefix, n) == self.known_routes_upto(prefix, k),
        decreases n,
    {
        if n > k {
            self.lemma_known_routes_upto_err(prefix, k, n - 1);
        }
    }

    /// An error met by dissemination among the first `k` sessions ends it.
    pub proof fn lemma_disseminate_upto_err(self, prefix: Prefix, k: int, n: int)
        requires
            0 <= k <= n,
            self.disseminate_upto(prefix, k).error is Some,
        ensures
            self.disseminate_upto(prefix, n) == self.disseminate_upto(prefix, k),
        decreases n,
    {
        if n > k {
            self.lemma_disseminate_upto_err(prefix, k, n - 1);
        }
    }

    /// An error met by the decision process among the first `k` known prefixes ends it.
    pub proof fn lemma_decide_upto_err(self, k: int, n: int)
        requires
            0 <= k <= n,
            self.decide_upto(k).1 is Err,
        ensures
            self.decide_upto(n) == self.decide_upto(k),
        decreases n,
    {
        if n > k {
            self.lemma_decide_upto_err(k, n - 1);
        }
    }

    /// An error met by dissemination among the first `k` known prefixes ends it.
    pub proof fn lemma_disseminate_all_upto_err(self, k: int, n: int)
        requires
            0 <= k <= n,
            self.disseminate_all_upto(k).result is Err,
        ensures
            self.disseminate_all_upto(n) == self.disseminate_all_upto(k),
        decreases n,
    {
        if n > k {
            self.lemma_disseminate_all_upto_err(k, n - 1);
        }
    }

    /// A change of the IGP table keeps the invariant.
    pub proof fn lemma_igp_wf(self, after: RouterState)
        requires
            self.wf(),
            after == (RouterState { igp: after.igp, ..self }),
        ensures
            after.wf(),
    {
        assert forall|k: (Prefix, RouterId)| #[trigger] after.rib_in.contains_key(k) implies {
            &&& after.known_prefixes.contains(k.0)
            &&& after.session_type(k.1) == Some(after.rib_in[k].from_type)
            &&& after.rib_in[k].from_id == k.1
            &&& after.rib_in[k].route.prefix == k.0
        } by {
            assert(self.rib_in.contains_key(k));
        }
        assert forall|k: (Prefix, RouterId)| #[trigger] after.rib_out.contains_key(k) implies {
            &&& after.known_prefixes.contains(k.0)
            &&& after.has_session(k.1)
        } by {
            assert(self.rib_out.contains_key(k));
        }
    }

    /// A change of the policies keeps the invariant.
    pub proof fn lemma_policy_wf(self, after: RouterState)
        requires
            self.wf(),
            after == (RouterState {
                local_pref_policy: after.local_pref_policy,
                no_export: after.no_export,
                ..self
            }),
        ensures
            after.wf(),
    {
        assert forall|k: (Prefix, RouterId)| #[trigger] after.rib_in.contains_key(k) implies {
            &&& after.known_prefixes.contains(k.0)
            &&& after.session_type(k.1) == Some(after.rib_in[k].from_type)
            &&& after.rib_in[k].from_id == k.1
            &&& after.rib_in[k].route.prefix == k.0
        } by {
            assert(self.rib_in.contains_key(k));
        }
        assert forall|k: (Prefix, RouterId)| #[trigger] after.rib_out.contains_key(k) implies {
            &&& after.known_prefixes.contains(k.0)
            &&& after.has_session(k.1)
        } by {
            assert(self.rib_out.contains_key(k));
        }
    }

    /// A change of the selected route of a known prefix keeps the invariant.
    pub proof fn lemma_rib_wf(self, after: RouterState, prefix: Prefix)
        requires
            self.wf(),
            self.known_prefixes.contains(prefix),
            after == (RouterState { rib: after.rib, ..self }),
            forall|p: Prefix|
                p != prefix && #[trigger] after.rib.contains_key(p) ==> self.rib.contains_key(p)
                    && after.rib[p] == self.rib[p],
            after.rib.contains_key(prefix) ==> after.rib[prefix].igp_cost is Some,
        ensures
            after.wf(),
    {
        assert forall|k: (Prefix, RouterId)| #[trigger] after.rib_in.contains_key(k) implies {
            &&& after.known_prefixes.contains(k.0)
            &&& after.session_type(k.1) == Some(after.rib_in[k].from_type)
            &&& after.rib_in[k].from_id == k.1
            &&& after.rib_in[k].route.prefix == k.0
        } by {
            assert(self.rib_in.contains_key(k));
        }
        assert forall|k: (Prefix, RouterId)| #[trigger] after.rib_out.contains_key(k) implies {
            &&& after.known_prefixes.contains(k.0)
            &&& after.has_session(k.1)
        } by {
            assert(self.rib_out.contains_key(k));
        }
    }

    /// Recording a prefix as known keeps the invariant, also right after a change of
    /// RIB-in for that prefix that came over a current session.
    pub proof fn lemma_learn_wf(self, before: RouterState, prefix: Prefix, from: RouterId)
        requires
            before.wf(),
            self == (RouterState { rib_in: self.rib_in, ..before }),
            forall|k: (Prefix, RouterId)|
                k != (prefix, from) && #[trigger] self.rib_in.contains_key(k) ==> {
                    &&& before.rib_in.contains_key(k)
                    &&& before.rib_in[k] == self.rib_in[k]
                },
            self.rib_in.contains_key((prefix, from)) ==> {
                &&& before.session_type(from) == Some(self.rib_in[(prefix, from)].from_type)
                &&& self.rib_in[(prefix, from)].from_id == from
                &&& self.rib_in[(prefix, from)].route.prefix == prefix
            },
        ensures
            self.learn_prefix(prefix).wf(),
            self.learn_prefix(prefix).known_prefixes.contains(prefix),
    {
        let s = self.learn_prefix(prefix);
        if !self.known_prefixes.contains(prefix) {
            let n = self.known_prefixes.len() as int;
            assert(s.known_prefixes[n] == prefix);
            assert forall|p: Prefix| self.known_prefixes.contains(p) implies s.known_prefixes.contains(
                p,
            ) by {
                let i = choose|i: int| 0 <= i < n && self.known_prefixes[i] == p;
                assert(s.known_prefixes[i] == p);
            }
            assert forall|i: int, j: int|
                0 <= i < s.known_prefixes.len() && 0 <= j < s.known_prefixes.len() && i
                    != j implies s.known_prefixes[i] != s.known_prefixes[j] by {
                if i < n && j < n {
                    assert(self.known_prefixes[i] != self.known_prefixes[j]);
                } else if i < n {
                    assert(self.known_prefixes[i] == s.known_prefixes[i]);
                } else {
                    assert(self.known_prefixes[j] == s.known_prefixes[j]);
                }
            }
        }
        assert forall|k: (Prefix, RouterId)| #[trigger] s.rib_in.contains_key(k) implies {
            &&& s.known_prefixes.contains(k.0)
            &&& s.session_type(k.1) == Some(s.rib_in[k].from_type)
            &&& s.rib_in[k].from_id == k.1
            &&& s.rib_in[k].route.prefix == k.0
        } by {
            if k != (prefix, from) {
                assert(before.rib_in.contains_key(k));
                assert(before.known_prefixes.contains(k.0));
            }
        }
        assert forall|k: (Prefix, RouterId)| #[trigger] s.rib_out.contains_key(k) implies {
            &&& s.known_prefixes.contains(k.0)
            &&& s.has_session(k.1)
        } by {
            assert(before.rib_out.contains_key(k));
            assert(before.known_prefixes.contains(k.0));
        }
        assert forall|p: Prefix| #[trigger] s.rib.contains_key(p) implies s.known_prefixes.contains(
            p,
        ) && s.rib[p].igp_cost is Some by {
            assert(before.rib.contains_key(p));
            assert(before.known_prefixes.contains(p));
        }
    }

    /// A change of RIB-out at a known prefix and a current session keeps the invariant.
    pub proof fn lemma_rib_out_wf(self, after: RouterState, prefix: Prefix, peer: RouterId)
        requires
            self.wf(),
            self.known_prefixes.contains(prefix),
            self.has_session(peer),
            after == (RouterState { rib_out: after.rib_out, ..self }),
            forall|k: (Prefix, RouterId)|
                k != (prefix, peer) && #[trigger] after.rib_out.contains_key(k)
                    ==> self.rib_out.contains_key(k),
        ensures
            after.wf(),
    {
        assert forall|k: (Prefix, RouterId)| #[trigger] after.rib_out.contains_key(k) implies {
            &&& after.known_prefixes.contains(k.0)
            &&& after.has_session(k.1)
        } by {
            if k != (prefix, peer) {
                assert(self.rib_out.contains_key(k));
                let i = self.session_index(k.1);
                assert(after.sessions[i].0 == k.1);
            } else {
                let i = self.session_index(peer);
                assert(after.sessions[i].0 == peer);
            }
        }
        assert forall|k: (Prefix, RouterId)| #[trigger] after.rib_in.contains_key(k) implies {
            &&& after.known_prefixes.contains(k.0)
            &&& after.session_type(k.1) == Some(after.rib_in[k].from_type)
            &&& after.rib_in[k].from_id == k.1
            &&& after.rib_in[k].route.prefix == k.0
        } by {
            assert(self.rib_in.contains_key(k));
            assert(after.session_type(k.1) == self.session_type(k.1));
        }
    }
}

/// A RIB without the entries of `peer` for the first `k` of the listed prefixes.
pub open spec fn purge_upto(
    rib: Map<(Prefix, RouterId), RibEntryView>,
    prefixes: Seq<Prefix>,
    peer: RouterId,
    k: int,
) -> Map<(Prefix, RouterId), RibEntryView>
    decreases k,
{
    if k <= 0 {
        rib
    } else {
        purge_upto(rib, prefixes, peer, k - 1).remove((prefixes[k - 1], peer))
    }
}

/// Purging a neighbor prefix by prefix removes all its entries, when every prefix of
/// the RIB is listed.
pub proof fn lemma_purge_upto(
    rib: Map<(Prefix, RouterId), RibEntryView>,
    prefixes: Seq<Prefix>,
    peer: RouterId,
    k: int,
)
    requires
        0 <= k <= prefixes.len(),
    ensures
        forall|key: (Prefix, RouterId)| #[trigger]
            purge_upto(rib, prefixes, peer, k).contains_key(key) <==> rib.contains_key(key) && !(
            key.1 == peer && prefixes.take(k).contains(key.0)),
        forall|key: (Prefix, RouterId)| #[trigger]
            purge_upto(rib, prefixes, peer, k).contains_key(key) ==> purge_upto(
                rib,
                prefixes,
                peer,
                k,
            )[key] == rib[key],
        k == prefixes.len() && (forall|key: (Prefix, RouterId)| #[trigger]
            rib.contains_key(key) ==> prefixes.contains(key.0)) ==> purge_upto(
            rib,
            prefixes,
            peer,
            k,
        ) == purge_neighbor(rib, peer),
    decreases k,
{
    let cur = purge_upto(rib, prefixes, peer, k);
    if k > 0 {
        lemma_purge_upto(rib, prefixes, peer, k - 1);
        let prev = purge_upto(rib, prefixes, peer, k - 1);
        assert(cur == prev.remove((prefixes[k - 1], peer)));
        assert forall|key: (Prefix, RouterId)| #[trigger]
            cur.contains_key(key) <==> rib.contains_key(key) && !(key.1 == peer && prefixes.take(
                k,
            ).contains(key.0)) by {
            lemma_take_contains(prefixes, k, key.0);
            assert(cur.contains_key(key) <==> prev.contains_key(key) && key != (
                prefixes[k - 1],
                peer,
            ));
        }
        assert forall|key: (Prefix, RouterId)| #[trigger] cur.contains_key(key) implies cur[key]
            == rib[key] by {
            assert(prev.contains_key(key));
        }
    } else {
        assert(prefixes.take(0).len() == 0);
    }
    if k == prefixes.len() && (forall|key: (Prefix, RouterId)| #[trigger]
        rib.contains_key(key) ==> prefixes.contains(key.0)) {
        assert(prefixes.take(k) =~= prefixes);
        let all = purge_neighbor(rib, peer);
        assert forall|key: (Prefix, RouterId)| cur.contains_key(key) <==> all.contains_key(
            key,
        ) by {
            if rib.contains_key(key) {
                assert(prefixes.contains(key.0));
            }
        }
        assert(cur =~= all);
    }
}

/// The first `k` elements of a sequence are the first `k - 1` and the one after them.
proof fn lemma_take_contains(s: Seq<Prefix>, k: int, p: Prefix)
    requires
        0 < k <= s.len(),
    ensures
        s.take(k).contains(p) <==> s.take(k - 1).contains(p) || p == s[k - 1],
{
    if s.take(k).contains(p) {
        let i = choose|i: int| 0 <= i < k && #[trigger] s.take(k)[i] == p;
        if i < k - 1 {
            assert(s.take(k - 1)[i] == p);
        }
    }
    if s.take(k - 1).contains(p) {
        let i = choose|i: int| 0 <= i < k - 1 && #[trigger] s.take(k - 1)[i] == p;
        assert(s.take(k)[i] == p);
    }
    if p == s[k - 1] {
        assert(s.take(k)[k - 1] == p);
    }
}

} // verus!
