//! The network driver as a transition system over mathematical state.
//!
//! Every operation of [`crate::network::Network`] is specified as one of the functions
//! below, applied to the network's view.

use vstd::prelude::*;
use crate::bgp::{BgpEventView, BgpSessionType};
use crate::event::EventView;
use crate::external_router::ExternalState;
use crate::igp::{table_for, with_link_weight, Link};
use crate::state::RouterState;
use crate::types::{AsId, DeviceError, LinkWeight, NetworkError, Prefix, RouterId};

verus! {

/// The AS number of every internal router.
pub const INTERNAL_AS: u32 = 65001;

/// The iteration cap of a new network.
pub const DEFAULT_STOP_AFTER: usize = 10_000;

/// Mathematical state of a device.
pub enum DeviceState {
    Internal(RouterState),
    External(ExternalState),
}

impl DeviceState {
    /// The id the device was created with.
    pub open spec fn router_id(self) -> RouterId {
        match self {
            DeviceState::Internal(r) => r.router_id,
            DeviceState::External(r) => r.router_id,
        }
    }

    /// The name the device was created with.
    pub open spec fn name(self) -> Seq<char> {
        match self {
            DeviceState::Internal(r) => r.name,
            DeviceState::External(r) => r.name,
        }
    }

    /// The invariant of the device.
    pub open spec fn wf(self) -> bool {
        match self {
            DeviceState::Internal(r) => r.wf(),
            DeviceState::External(r) => r.wf(),
        }
    }
}

/// Mathematical state of a network.
pub struct NetworkState {
    /// The devices; the id of a device is its position.
    pub devices: Seq<DeviceState>,
    /// The directed links of the IGP topology, in the order of their addition.
    pub links: Seq<Link>,
    /// The pending events, front first.
    pub queue: Seq<EventView>,
    /// The iteration cap of one drive of the queue, if any.
    pub stop_after: Option<usize>,
}

/// The account of one delivery: the event that was handed to its device and, where a
/// router skipped it because it holds no session with a neighbor, that neighbor.
pub struct DeliveryView {
    pub event: EventView,
    pub skipped: Option<RouterId>,
}

/// Why a route trace ended without reaching an external router.
pub enum TraceFault {
    /// The trace was to start at an external router.
    External(RouterId),
    /// The router is no device of the network.
    NotFound(RouterId),
    /// The trace came back to a router already on the path.
    Loop(Seq<RouterId>),
    /// The last router of the path has no usable route.
    BlackHole(Seq<RouterId>),
}

impl NetworkState {
    /// The state of a new network.
    pub open spec fn init() -> NetworkState {
        NetworkState {
            devices: Seq::empty(),
            links: Seq::empty(),
            queue: Seq::empty(),
            stop_after: Some(DEFAULT_STOP_AFTER),
        }
    }

    /// The invariant of a network: every device knows its position as its id and is
    /// well-formed.
    pub open spec fn wf(self) -> bool {
        &&& self.devices.len() <= u32::MAX
        &&& forall|i: int|
            0 <= i < self.devices.len() ==> (#[trigger] self.devices[i]).router_id() == i
                && self.devices[i].wf()
    }

    /// `id` names an internal router.
    pub open spec fn is_internal(self, id: RouterId) -> bool {
        id < self.devices.len() && self.devices[id as int] is Internal
    }

    /// `id` names an external router.
    pub open spec fn is_external(self, id: RouterId) -> bool {
        id < self.devices.len() && self.devices[id as int] is External
    }

    /// The state of the internal router `id`.
    pub open spec fn router(self, id: RouterId) -> RouterState {
        self.devices[id as int]->Internal_0
    }

    /// The state of the external router `id`.
    pub open spec fn external(self, id: RouterId) -> ExternalState {
        self.devices[id as int]->External_0
    }

    /// The network with the internal router `id` in the state `r`.
    pub open spec fn with_router(self, id: RouterId, r: RouterState) -> NetworkState {
        NetworkState { devices: self.devices.update(id as int, DeviceState::Internal(r)), ..self }
    }

    /// The network with the external router `id` in the state `r`.
    pub open spec fn with_external(self, id: RouterId, r: ExternalState) -> NetworkState {
        NetworkState { devices: self.devices.update(id as int, DeviceState::External(r)), ..self }
    }

    /// The most events that one drive of the queue handles.
    pub open spec fn budget(self) -> nat {
        match self.stop_after {
            Some(n) => n as nat,
            None => usize::MAX as nat,
        }
    }

    // ----- topology -----

    /// A new internal router joins; its id is the number of devices before it.
    pub open spec fn add_router(self, name: Seq<char>) -> NetworkState {
        NetworkState {
            devices: self.devices.push(
                DeviceState::Internal(
                    RouterState::init(name, self.devices.len() as RouterId, AsId(INTERNAL_AS)),
                ),
            ),
            ..self
        }
    }

    /// A new external router joins; its id is the number of devices before it.
    pub open spec fn add_external_router(self, name: Seq<char>, as_id: AsId) -> NetworkState {
        NetworkState {
            devices: self.devices.push(
                DeviceState::External(
                    ExternalState {
                        name,
                        router_id: self.devices.len() as RouterId,
                        as_id,
                        neighbors: Seq::empty(),
                    },
                ),
            ),
            ..self
        }
    }

    /// Where `ext` is an external router it is connected to `other`, and `other`, if
    /// internal, establishes an eBGP session with it.
    pub open spec fn attach_external(self, ext: RouterId, other: RouterId) -> (
        NetworkState,
        Result<(), NetworkError>,
    ) {
        if !self.is_external(ext) {
            (self, Ok(()))
        } else {
            let s = self.with_external(ext, self.external(ext).connect(other));
            if !s.is_internal(other) {
                (s, Ok(()))
            } else {
                match s.router(other).establish_session(ext, BgpSessionType::EBgp) {
                    Ok(r) => (s.with_router(other, r), Ok(())),
                    Err(e) => (s, Err(NetworkError::DeviceError(e))),
                }
            }
        }
    }

    /// An edge is created: a link each way, and eBGP towards every external end.
    pub open spec fn add_edge(
        self,
        source: RouterId,
        target: RouterId,
        weight: LinkWeight,
        rev_w: Option<LinkWeight>,
    ) -> (NetworkState, Result<(), NetworkError>) {
        if source >= self.devices.len() {
            (self, Err(NetworkError::DeviceNotFound(source)))
        } else if target >= self.devices.len() {
            (self, Err(NetworkError::DeviceNotFound(target)))
        } else {
            let linked = NetworkState {
                links: self.links.push((source, target, weight)).push(
                    (
                        target,
                        source,
                        match rev_w {
                            Some(w) => w,
                            None => weight,
                        },
                    ),
                ),
                ..self
            };
            let first = linked.attach_external(source, target);
            if first.1 is Err {
                first
            } else {
                first.0.attach_external(target, source)
            }
        }
    }

    /// The weights of the two links of an edge are set; the edge is created where it
    /// does not exist. Nothing changes where an end is no device.
    pub open spec fn update_edge_weight(
        self,
        source: RouterId,
        target: RouterId,
        weight: LinkWeight,
        rev_w: Option<LinkWeight>,
    ) -> NetworkState {
        if source >= self.devices.len() || target >= self.devices.len() {
            self
        } else {
            NetworkState {
                links: with_link_weight(
                    with_link_weight(self.links, source, target, weight),
                    target,
                    source,
                    match rev_w {
                        Some(w) => w,
                        None => weight,
                    },
                ),
                ..self
            }
        }
    }

    // ----- the queue -----

    /// The front event is taken from the queue and handed to the device it is addressed
    /// to. What a router emits is appended to the queue. A router without a session for
    /// the sender skips the event; any other error is passed on.
    pub open spec fn deliver_next(self) -> (NetworkState, Result<(), NetworkError>) {
        let event = self.queue[0];
        let rest = NetworkState { queue: self.queue.drop_first(), ..self };
        match event {
            EventView::Bgp(_, to, _) => if to >= self.devices.len() {
                (rest, Err(NetworkError::DeviceNotFound(to)))
            } else {
                match self.devices[to as int] {
                    DeviceState::External(_) => (rest, Ok(())),
                    DeviceState::Internal(r) => {
                        let o = r.handle_event(event);
                        let next = NetworkState {
                            devices: self.devices.update(to as int, DeviceState::Internal(o.state)),
                            queue: rest.queue + o.events,
                            ..self
                        };
                        match o.result {
                            Ok(()) => (next, Ok(())),
                            Err(DeviceError::NoBgpSession(_)) => (next, Ok(())),
                            Err(e) => (next, Err(NetworkError::DeviceError(e))),
                        }
                    },
                }
            },
        }
    }

    /// The account of the delivery of the front event.
    pub open spec fn next_delivery(self) -> DeliveryView {
        let event = self.queue[0];
        DeliveryView {
            event,
            skipped: match event {
                EventView::Bgp(_, to, _) => if self.is_internal(to) {
                    match self.router(to).handle_event(event).result {
                        Err(DeviceError::NoBgpSession(peer)) => Some(peer),
                        _ => None,
                    }
                } else {
                    None
                },
            },
        }
    }

    /// The accounts of the deliveries that a drive of the queue for at most `budget`
    /// events makes, in their order, the one that failed for good included.
    pub open spec fn deliveries(self, budget: nat) -> Seq<DeliveryView>
        decreases budget,
    {
        if self.queue.len() == 0 || budget == 0 {
            Seq::empty()
        } else {
            let step = self.deliver_next();
            seq![self.next_delivery()] + (match step.1 {
                Err(_) => Seq::empty(),
                Ok(()) => step.0.deliveries((budget - 1) as nat),
            })
        }
    }

    /// Driving the queue for at most `budget` events: `Ok(true)` when the queue is
    /// drained, `Ok(false)` when events are still pending after `budget` of them were
    /// handled, and the error of the first event that fails for good.
    pub open spec fn run(self, budget: nat) -> (NetworkState, Result<bool, NetworkError>)
        decreases budget,
    {
        if self.queue.len() == 0 {
            (self, Ok(true))
        } else if budget == 0 {
            (self, Ok(false))
        } else {
            let step = self.deliver_next();
            match step.1 {
                Err(e) => (step.0, Err(e)),
                Ok(()) => step.0.run((budget - 1) as nat),
            }
        }
    }

    /// Driving the queue under the iteration cap of the network.
    pub open spec fn do_queue(self) -> (NetworkState, Result<bool, NetworkError>) {
        self.run(self.budget())
    }

    /// Decision and dissemination for every known prefix of one router; the events are
    /// queued, not handled. A failing decision sends nothing.
    pub open spec fn schedule_update(self, id: RouterId) -> (NetworkState, Result<(), NetworkError>) {
        if !self.is_internal(id) {
            (self, Err(NetworkError::DeviceNotFound(id)))
        } else {
            let decided = self.router(id).decide_all();
            match decided.1 {
                Err(e) => (self.with_router(id, decided.0), Err(NetworkError::DeviceError(e))),
                Ok(()) => {
                    let o = decided.0.disseminate_all();
                    (
                        NetworkState { queue: self.queue + o.events, ..self.with_router(id, o.state) },
                        match o.result {
                            Ok(()) => Ok(()),
                            Err(e) => Err(NetworkError::DeviceError(e)),
                        },
                    )
                },
            }
        }
    }

    /// Updates are scheduled for the first `k` of the listed routers, in order, up to
    /// the first that fails.
    pub open spec fn schedule_upto(self, ids: Seq<RouterId>, k: int) -> (
        NetworkState,
        Result<(), NetworkError>,
    )
        decreases k,
    {
        if k <= 0 {
            (self, Ok(()))
        } else {
            let prev = self.schedule_upto(ids, k - 1);
            if prev.1 is Err {
                prev
            } else {
                prev.0.schedule_update(ids[k - 1])
            }
        }
    }

    /// Updates are scheduled for the listed routers, then the queue is driven.
    pub open spec fn update_and_run(self, ids: Seq<RouterId>) -> (
        NetworkState,
        Result<bool, NetworkError>,
    ) {
        let scheduled = self.schedule_upto(ids, ids.len() as int);
        match scheduled.1 {
            Err(e) => (scheduled.0, Err(e)),
            Ok(()) => scheduled.0.do_queue(),
        }
    }

    /// Updates are scheduled for the internal routers among the first `k` devices, in
    /// the order of their ids, up to the first that fails.
    pub open spec fn schedule_all_upto(self, k: int) -> (NetworkState, Result<(), NetworkError>)
        decreases k,
    {
        if k <= 0 {
            (self, Ok(()))
        } else {
            let prev = self.schedule_all_upto(k - 1);
            if prev.1 is Err || !self.is_internal((k - 1) as RouterId) {
                prev
            } else {
                prev.0.schedule_update((k - 1) as RouterId)
            }
        }
    }

    // ----- sessions -----

    /// An iBGP session between two internal routers is established, on both sides.
    /// With `route_reflector` the source takes the target as its client.
    pub open spec fn add_ibgp_session(
        self,
        source: RouterId,
        target: RouterId,
        route_reflector: bool,
        update: bool,
    ) -> (NetworkState, Result<bool, NetworkError>) {
        let kind = if route_reflector {
            BgpSessionType::IBgpClient
        } else {
            BgpSessionType::IBgpPeer
        };
        if !self.is_internal(source) {
            (self, Err(NetworkError::DeviceNotFound(source)))
        } else {
            match self.router(source).establish_session(target, kind) {
                Err(e) => (self, Err(NetworkError::DeviceError(e))),
                Ok(rs) => {
                    let s1 = self.with_router(source, rs);
                    if !s1.is_internal(target) {
                        (s1, Err(NetworkError::DeviceNotFound(target)))
                    } else {
                        match s1.router(target).establish_session(source, BgpSessionType::IBgpPeer) {
                            Err(e) => (s1, Err(NetworkError::DeviceError(e))),
                            Ok(rt) => {
                                let s2 = s1.with_router(target, rt);
                                if update {
                                    s2.update_and_run(seq![source, target])
                                } else {
                                    (s2, Ok(true))
                                }
                            },
                        }
                    }
                },
            }
        }
    }

    /// The iBGP session between two internal routers is closed, on both sides.
    pub open spec fn remove_ibgp_session(self, source: RouterId, target: RouterId, update: bool) -> (
        NetworkState,
        Result<bool, NetworkError>,
    ) {
        if !self.is_internal(source) {
            (self, Err(NetworkError::DeviceNotFound(source)))
        } else {
            match self.router(source).close_session(target) {
                Err(e) => (self, Err(NetworkError::DeviceError(e))),
                Ok(rs) => {
                    let s1 = self.with_router(source, rs);
                    if !s1.is_internal(target) {
                        (s1, Err(NetworkError::DeviceNotFound(target)))
                    } else {
                        match s1.router(target).close_session(source) {
                            Err(e) => (s1, Err(NetworkError::DeviceError(e))),
                            Ok(rt) => {
                                let s2 = s1.with_router(target, rt);
                                if update {
                                    s2.update_and_run(seq![source, target])
                                } else {
                                    (s2, Ok(true))
                                }
                            },
                        }
                    }
                },
            }
        }
    }

    // ----- IGP tables -----

    /// The router `id` replaces its IGP table by the one derived from the topology.
    pub open spec fn write_table(self, id: RouterId) -> (NetworkState, Result<(), NetworkError>) {
        if !self.is_internal(id) {
            (self, Err(NetworkError::DeviceNotFound(id)))
        } else {
            match table_for(self.devices.len(), self.links, id) {
                Some(table) => (
                    self.with_router(id, RouterState { igp: table, ..self.router(id) }),
                    Ok(()),
                ),
                None => (
                    self,
                    Err(NetworkError::DeviceError(DeviceError::BadIgpTopology(id))),
                ),
            }
        }
    }

    /// The first `k` of the listed routers replace their IGP tables, in order, up to
    /// the first that fails.
    pub open spec fn write_tables_upto(self, ids: Seq<RouterId>, k: int) -> (
        NetworkState,
        Result<(), NetworkError>,
    )
        decreases k,
    {
        if k <= 0 {
            (self, Ok(()))
        } else {
            let prev = self.write_tables_upto(ids, k - 1);
            if prev.1 is Err {
                prev
            } else {
                prev.0.write_table(ids[k - 1])
            }
        }
    }

    /// The listed routers replace their IGP tables; with `update` they then run their
    /// BGP process and the queue is driven.
    pub open spec fn write_igp_fw_tables_order(self, order: Seq<RouterId>, update: bool) -> (
        NetworkState,
        Result<bool, NetworkError>,
    ) {
        let written = self.write_tables_upto(order, order.len() as int);
        match written.1 {
            Err(e) => (written.0, Err(e)),
            Ok(()) => if update {
                written.0.update_and_run(order)
            } else {
                (written.0, Ok(true))
            },
        }
    }

    /// The internal routers among the first `k` devices replace their IGP tables, in
    /// the order of their ids, up to the first that fails.
    pub open spec fn write_all_upto(self, k: int) -> (NetworkState, Result<(), NetworkError>)
        decreases k,
    {
        if k <= 0 {
            (self, Ok(()))
        } else {
            let prev = self.write_all_upto(k - 1);
            if prev.1 is Err || !self.is_internal((k - 1) as RouterId) {
                prev
            } else {
                prev.0.write_table((k - 1) as RouterId)
            }
        }
    }

    /// All internal routers replace their IGP tables, in the order of their ids; with
    /// `update` they then run their BGP process and the queue is driven.
    pub open spec fn write_igp_fw_tables(self, update: bool) -> (
        NetworkState,
        Result<bool, NetworkError>,
    ) {
        let written = self.write_all_upto(self.devices.len() as int);
        match written.1 {
            Err(e) => (written.0, Err(e)),
            Ok(()) => if update {
                let scheduled = written.0.schedule_all_upto(self.devices.len() as int);
                match scheduled.1 {
                    Err(e) => (scheduled.0, Err(e)),
                    Ok(()) => scheduled.0.do_queue(),
                }
            } else {
                (written.0, Ok(true))
            },
        }
    }

    // ----- external routes -----

    /// The external router `source` sends `message` to all its neighbors; with `update`
    /// the queue is then driven.
    pub open spec fn announce(self, source: RouterId, message: BgpEventView, update: bool) -> (
        NetworkState,
        Result<bool, NetworkError>,
    ) {
        if !self.is_external(source) {
            (self, Err(NetworkError::DeviceNotFound(source)))
        } else {
            let queued = NetworkState {
                queue: self.queue + self.external(source).to_all_neighbors(message),
                ..self
            };
            if update {
                queued.do_queue()
            } else {
                (queued, Ok(true))
            }
        }
    }

    /// The external router `source` advertises a route for `prefix`.
    pub open spec fn advertise_external_route(
        self,
        source: RouterId,
        prefix: Prefix,
        as_path: Seq<AsId>,
        med: Option<u32>,
        update: bool,
    ) -> (NetworkState, Result<bool, NetworkError>) {
        if !self.is_external(source) {
            (self, Err(NetworkError::DeviceNotFound(source)))
        } else {
            self.announce(
                source,
                BgpEventView::Update(self.external(source).advertised_route(prefix, as_path, med)),
                update,
            )
        }
    }

    /// The external router `source` withdraws its route for `prefix`.
    pub open spec fn retract_external_route(self, source: RouterId, prefix: Prefix, update: bool) -> (
        NetworkState,
        Result<bool, NetworkError>,
    ) {
        self.announce(source, BgpEventView::Withdraw(prefix), update)
    }

    // ----- route inspection -----

    /// The forwarding path from `current` on, behind the routers of `walked`: each
    /// internal router hands over to its IGP next hop towards `prefix`, and the path
    /// ends at the first external router. The trace fails at a router that is no
    /// device, that was walked before, or that has no next hop. At most `fuel` hops are
    /// followed.
    pub open spec fn trace(self, current: RouterId, prefix: Prefix, walked: Seq<RouterId>, fuel: nat) -> Result<
        Seq<RouterId>,
        TraceFault,
    >
        decreases fuel,
    {
        if current >= self.devices.len() {
            Err(TraceFault::NotFound(current))
        } else {
            let path = walked.push(current);
            match self.devices[current as int] {
                DeviceState::External(_) => Ok(path),
                DeviceState::Internal(r) => if walked.contains(current) {
                    Err(TraceFault::Loop(path))
                } else {
                    match r.next_hop(prefix) {
                        None => Err(TraceFault::BlackHole(path)),
                        Some(hop) => if fuel == 0 {
                            Err(TraceFault::Loop(path))
                        } else {
                            self.trace(hop, prefix, path, (fuel - 1) as nat)
                        },
                    }
                },
            }
        }
    }

    /// The forwarding path from the internal router `source` towards `prefix`.
    pub open spec fn route(self, source: RouterId, prefix: Prefix) -> Result<Seq<RouterId>, TraceFault> {
        if self.is_external(source) {
            Err(TraceFault::External(source))
        } else {
            self.trace(source, prefix, Seq::empty(), self.devices.len())
        }
    }

    /// The names of the devices of a path.
    pub open spec fn names(self, path: Seq<RouterId>) -> Seq<Seq<char>> {
        Seq::new(path.len(), |i: int| self.devices[path[i] as int].name())
    }
}

impl NetworkState {
    /// An error met while scheduling the first `k` routers ends the scheduling.
    pub proof fn lemma_schedule_upto_err(self, ids: Seq<RouterId>, k: int, n: int)
        requires
            0 <= k <= n,
            self.schedule_upto(ids, k).1 is Err,
        ensures
            self.schedule_upto(ids, n) == self.schedule_upto(ids, k),
        decreases n,
    {
        if n > k {
            self.lemma_schedule_upto_err(ids, k, n - 1);
        }
    }

    /// An error met while scheduling the first `k` devices ends the scheduling.
    pub proof fn lemma_schedule_all_upto_err(self, k: int, n: int)
        requires
            0 <= k <= n,
            self.schedule_all_upto(k).1 is Err,
        ensures
            self.schedule_all_upto(n) == self.schedule_all_upto(k),
        decreases n,
    {
        if n > k {
            self.lemma_schedule_all_upto_err(k, n - 1);
        }
    }

    /// An error met while the first `k` routers write their tables ends the writing.
    pub proof fn lemma_write_tables_upto_err(self, ids: Seq<RouterId>, k: int, n: int)
        requires
            0 <= k <= n,
            self.write_tables_upto(ids, k).1 is Err,
        ensures
            self.write_tables_upto(ids, n) == self.write_tables_upto(ids, k),
        decreases n,
    {
        if n > k {
            self.lemma_write_tables_upto_err(ids, k, n - 1);
        }
    }

    /// An error met while the first `k` devices write their tables ends the writing.
    pub proof fn lemma_write_all_upto_err(self, k: int, n: int)
        requires
            0 <= k <= n,
            self.write_all_upto(k).1 is Err,
        ensures
            self.write_all_upto(n) == self.write_all_upto(k),
        decreases n,
    {
        if n > k {
            self.lemma_write_all_upto_err(k, n - 1);
        }
    }
}

} // verus!
