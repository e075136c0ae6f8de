//! The network: the devices, the IGP topology between them and the queue of events
//! that drives BGP convergence.

use vstd::prelude::*;
use std::collections::{HashSet, VecDeque};
use crate::bgp::{BgpEvent, BgpEventView, BgpSessionType};
use crate::event::{queue_view, Event, EventQueue, EventView};
use crate::external_router::{ExternalRouter, ExternalState};
use crate::igp::IgpNetwork;
use crate::net_state::{
    DeliveryView, DeviceState, NetworkState, TraceFault, DEFAULT_STOP_AFTER, INTERNAL_AS,
};
use crate::rib::RIBEntry;
use crate::router::Router;
use crate::state::RouterState;
use crate::types::{
    AsId, DeviceError, LinkWeight, NetworkDevice, NetworkError, Prefix, RouterId,
};

verus! {

/// A device of the network: an internal or an external router.
#[derive(Debug)]
enum Device {
    Internal(Router),
    External(ExternalRouter),
}

impl View for Device {
    type V = DeviceState;

    closed spec fn view(&self) -> DeviceState {
        match self {
            Device::Internal(r) => DeviceState::Internal(r@),
            Device::External(r) => DeviceState::External(r@),
        }
    }
}

/// The states of a list of devices.
spec fn devices_view(devices: Seq<Device>) -> Seq<DeviceState> {
    devices.map_values(|d: Device| d@)
}

/// The account of one delivery: the event that was handed to its device and, where a
/// router skipped it because it holds no session with a neighbor, that neighbor.
#[derive(Debug)]
pub struct Delivery {
    pub event: Event,
    pub skipped: Option<RouterId>,
}

impl View for Delivery {
    type V = DeliveryView;

    open spec fn view(&self) -> DeliveryView {
        DeliveryView { event: self.event@, skipped: self.skipped }
    }
}

/// The contents of a list of accounts.
pub open spec fn deliveries_view(log: Seq<Delivery>) -> Seq<DeliveryView> {
    log.map_values(|d: Delivery| d@)
}

/// The network driver: it owns the devices, the topology and the event queue.
#[derive(Debug)]
pub struct Network {
    net: IgpNetwork,
    devices: Vec<Device>,
    queue: EventQueue,
    stop_after: Option<usize>,
}

impl View for Network {
    type V = NetworkState;

    closed spec fn view(&self) -> NetworkState {
        NetworkState {
            devices: devices_view(self.devices@),
            links: self.net.links(),
            queue: queue_view(&self.queue),
            stop_after: self.stop_after,
        }
    }
}

impl Network {
    /// The invariant of the network: that of its state, with one node of the topology
    /// for every device.
    pub closed spec fn wf(&self) -> bool {
        &&& self@.wf()
        &&& self.net.wf()
        &&& self.net.nodes() == self.devices@.len()
    }

    /// A well-formed network has a well-formed state.
    pub proof fn lemma_wf(&self)
        requires
            self.wf(),
        ensures
            self@.wf(),
    {
    }

    /// A network without devices, with the default iteration cap.
    pub fn new() -> (n: Self)
        ensures
            n.wf(),
            n@ == NetworkState::init(),
    {
        let n = Self {
            net: IgpNetwork::new(),
            devices: Vec::new(),
            queue: VecDeque::new(),
            stop_after: Some(DEFAULT_STOP_AFTER),
        };
        assert(n@.devices =~= Seq::empty());
        assert(n@.queue =~= Seq::empty());
        n
    }

    /// Sets the iteration cap: a drive of the queue stops after that many events and
    /// leaves the rest pending. With `None` a drive goes on until the queue is drained,
    /// or until as many events were handled as the machine can count.
    pub fn stop_after_queue(&mut self, stop_after: Option<usize>)
        ensures
            old(self).wf() ==> final(self).wf(),
            final(self)@ == (NetworkState { stop_after, ..old(self)@ }),
    {
        self.stop_after = stop_after;
    }

    /// The number of devices.
    pub fn device_count(&self) -> (n: usize)
        ensures
            n == self@.devices.len(),
    {
        self.devices.len()
    }

    /// The number of directed links of the topology.
    pub fn link_count(&self) -> (n: usize)
        requires
            self.wf(),
        ensures
            n == self@.links.len(),
    {
        self.net.edge_count()
    }

    /// Adds an internal router to the topology and returns its id. The AS of every
    /// internal router is 65001.
    pub fn add_router(&mut self, name: &'static str) -> (id: RouterId)
        requires
            old(self).wf(),
            old(self)@.devices.len() < u32::MAX,
        ensures
            final(self).wf(),
            id == old(self)@.devices.len(),
            final(self)@ == old(self)@.add_router(name@),
    {
        let new_router = Router::new(name, self.net.add_node(), AsId(INTERNAL_AS));
        let router_id = new_router.router_id();
        proof {
            let d = Device::Internal(new_router);
            assert(devices_view(self.devices@.push(d)) =~= devices_view(self.devices@).push(d@));
        }
        self.devices.push(Device::Internal(new_router));
        router_id
    }

    /// Adds an external router to the topology and returns its id.
    pub fn add_external_router(&mut self, name: &'static str, as_id: AsId) -> (id: RouterId)
        requires
            old(self).wf(),
            old(self)@.devices.len() < u32::MAX,
        ensures
            final(self).wf(),
            id == old(self)@.devices.len(),
            final(self)@ == old(self)@.add_external_router(name@, as_id),
    {
        let new_router = ExternalRouter::new(name, self.net.add_node(), as_id);
        let router_id = new_router.router_id();
        proof {
            let d = Device::External(new_router);
            assert(devices_view(self.devices@.push(d)) =~= devices_view(self.devices@).push(d@));
        }
        self.devices.push(Device::External(new_router));
        router_id
    }

    /// The name of a device.
    pub fn get_router_name(&self, router_id: RouterId) -> (r: Result<&'static str, NetworkError>)
        ensures
            match r {
                Ok(name) => router_id < self@.devices.len() && name@
                    == self@.devices[router_id as int].name(),
                Err(e) => router_id >= self@.devices.len() && e == NetworkError::DeviceNotFound(
                    router_id,
                ),
            },
    {
        if (router_id as usize) < self.devices.len() {
            match &self.devices[router_id as usize] {
                Device::Internal(r) => Ok(r.name()),
                Device::External(r) => Ok(r.name()),
            }
        } else {
            Err(NetworkError::DeviceNotFound(router_id))
        }
    }

    /// The internal router with the given id.
    pub fn get_router(&self, router: RouterId) -> (r: Result<&Router, NetworkError>)
        ensures
            match r {
                Ok(found) => self@.is_internal(router) && found@ == self@.router(router),
                Err(e) => !self@.is_internal(router) && e == NetworkError::DeviceNotFound(router),
            },
            self.wf() && r is Ok ==> r->Ok_0.wf(),
    {
        if (router as usize) < self.devices.len() {
            match &self.devices[router as usize] {
                Device::Internal(r) => Ok(r),
                Device::External(_) => Err(NetworkError::DeviceNotFound(router)),
            }
        } else {
            Err(NetworkError::DeviceNotFound(router))
        }
    }

    /// The external router with the given id.
    pub fn get_external_router(&self, router: RouterId) -> (r: Result<
        &ExternalRouter,
        NetworkError,
    >)
        ensures
            match r {
                Ok(found) => self@.is_external(router) && found@ == self@.external(router),
                Err(e) => !self@.is_external(router) && e == NetworkError::DeviceNotFound(router),
            },
    {
        if (router as usize) < self.devices.len() {
            match &self.devices[router as usize] {
                Device::External(r) => Ok(r),
                Device::Internal(_) => Err(NetworkError::DeviceNotFound(router)),
            }
        } else {
            Err(NetworkError::DeviceNotFound(router))
        }
    }

    /// The pending events, front first.
    pub fn queued_events(&self) -> (events: Vec<Event>)
        ensures
            crate::event::events_view(events@) == self@.queue,
    {
        let mut events: Vec<Event> = Vec::new();
        let mut i: usize = 0;
        assert(crate::event::events_view(events@) =~= self@.queue.subrange(0, 0));
        while i < self.queue.len()
            invariant
                i <= self.queue.len(),
                crate::event::events_view(events@) == self@.queue.subrange(0, i as int),
            decreases self.queue.len() - i,
        {
            let event = self.queue[i].clone();
            proof {
                assert(self@.queue[i as int] == self.queue@[i as int]@);
                assert(crate::event::events_view(events@.push(event)) =~= crate::event::events_view(
                    events@,
                ).push(event@));
                assert(self@.queue.subrange(0, i + 1) =~= self@.queue.subrange(0, i as int).push(
                    event@,
                ));
            }
            events.push(event);
            i = i + 1;
        }
        assert(self@.queue.subrange(0, self@.queue.len() as int) =~= self@.queue);
        events
    }

    /// The internal router with the given id, to be changed in place. The network is
    /// well-formed again when the router is given back well-formed under its id.
    pub fn get_router_mut(&mut self, router: RouterId) -> (r: Result<&mut Router, NetworkError>)
        ensures
            r is Ok <==> old(self)@.is_internal(router),
            r matches Ok(found) ==> found@ == old(self)@.router(router),
            r matches Ok(found) ==> final(self)@ == old(self)@.with_router(router, final(found)@),
            r matches Ok(found) ==> (old(self).wf() ==> found.wf()),
            r matches Ok(found) ==> (old(self).wf() && final(found).wf() && final(found)@.router_id
                == router ==> final(self).wf()),
            r is Err && old(self).wf() ==> final(self).wf(),
            r matches Err(e) ==> e == NetworkError::DeviceNotFound(router) && final(self)@ == old(
                self,
            )@,
    {
        if (router as usize) < self.devices.len() {
            let internal = match &self.devices[router as usize] {
                Device::Internal(_) => true,
                Device::External(_) => false,
            };
            if !internal {
                return Err(NetworkError::DeviceNotFound(router));
            }
            match &mut self.devices[router as usize] {
                Device::Internal(r) => {
                    proof {
                        let after = Device::Internal(*final(r));
                        assert(devices_view(old(self).devices@.update(router as int, after))
                            =~= devices_view(old(self).devices@).update(router as int, after@));
                    }
                    Ok(r)
                },
                Device::External(_) => Err(NetworkError::DeviceNotFound(router)),
            }
        } else {
            Err(NetworkError::DeviceNotFound(router))
        }
    }

    /// Tells whether `id` names an internal router.
    fn is_internal_router(&self, id: RouterId) -> (r: bool)
        ensures
            r == self@.is_internal(id),
    {
        if (id as usize) < self.devices.len() {
            match &self.devices[id as usize] {
                Device::Internal(_) => true,
                Device::External(_) => false,
            }
        } else {
            false
        }
    }

    /// Tells whether `id` names an external router.
    fn is_external_router(&self, id: RouterId) -> (r: bool)
        ensures
            r == self@.is_external(id),
    {
        if (id as usize) < self.devices.len() {
            match &self.devices[id as usize] {
                Device::Internal(_) => false,
                Device::External(_) => true,
            }
        } else {
            false
        }
    }

    /// Connects the external router `ext` to `other`, with eBGP on the side of an
    /// internal `other`.
    fn attach_external(&mut self, ext: RouterId, other: RouterId) -> (r: Result<(), NetworkError>)
        requires
            old(self).wf(),
            other < old(self)@.devices.len(),
        ensures
            final(self).wf(),
            (final(self)@, r) == old(self)@.attach_external(ext, other),
    {
        if !self.is_external_router(ext) {
            return Ok(());
        }
        match &mut self.devices[ext as usize] {
            Device::External(e) => {
                e.add_neighbor(other);
            },
            Device::Internal(_) => {},
        }
        proof {
            assert(self.devices@ =~= old(self).devices@.update(ext as int, self.devices@[ext as int]));
            lemma_devices_update(old(self).devices@, ext as int, self.devices@[ext as int]);
            assert(self@ == old(self)@.with_external(
                ext,
                old(self)@.external(ext).connect(other),
            ));
        }
        let ghost mid = self.devices@;
        if !self.is_internal_router(other) {
            return Ok(());
        }
        let done = match &mut self.devices[other as usize] {
            Device::Internal(r) => r.establish_bgp_session(ext, BgpSessionType::EBgp),
            Device::External(_) => Ok(()),
        };
        proof {
            assert(self.devices@ =~= mid.update(other as int, self.devices@[other as int]));
            lemma_devices_update(mid, other as int, self.devices@[other as int]);
            assert(self@.devices == devices_view(mid).update(
                other as int,
                self.devices@[other as int]@,
            ));
            if done is Err {
                assert(self@.devices =~= devices_view(mid));
            }
        }
        match done {
            Ok(()) => Ok(()),
            Err(e) => Err(NetworkError::DeviceError(e)),
        }
    }

    /// Creates an edge between two devices: a link of weight `weight` from `source` to
    /// `target` and a link back, of weight `rev_w` where one is given and of the same
    /// weight else. An external end is connected to the other end, and an internal
    /// router at the other end establishes an eBGP session with it. What was done
    /// stays done when a session cannot be established.
    pub fn add_edge(
        &mut self,
        source: RouterId,
        target: RouterId,
        weight: LinkWeight,
        rev_w: Option<LinkWeight>,
    ) -> (r: Result<(), NetworkError>)
        requires
            old(self).wf(),
            old(self)@.links.len() + 2 <= u32::MAX,
        ensures
            final(self).wf(),
            (final(self)@, r) == old(self)@.add_edge(source, target, weight, rev_w),
    {
        if source as usize >= self.devices.len() {
            return Err(NetworkError::DeviceNotFound(source));
        }
        if target as usize >= self.devices.len() {
            return Err(NetworkError::DeviceNotFound(target));
        }
        // the two links
        self.net.add_edge(source, target, weight);
        self.net.add_edge(
            target,
            source,
            match rev_w {
                Some(w) => w,
                None => weight,
            },
        );
        // eBGP towards every external end
        match self.attach_external(source, target) {
            Ok(()) => {},
            Err(e) => {
                return Err(e);
            },
        }
        self.attach_external(target, source)
    }

    /// Sets the weights of the two links of an edge. The IGP tables keep their entries
    /// until they are written again.
    pub fn update_edge_weight(
        &mut self,
        source: RouterId,
        target: RouterId,
        weight: LinkWeight,
        rev_w: Option<LinkWeight>,
    )
        requires
            old(self).wf(),
            old(self)@.links.len() + 2 <= u32::MAX,
        ensures
            final(self).wf(),
            final(self)@ == old(self)@.update_edge_weight(source, target, weight, rev_w),
    {
        proof {
            crate::igp::lemma_with_link_weight_len(old(self)@.links, source, target, weight);
        }
        self.net.update_edge(source, target, weight);
        self.net.update_edge(
            target,
            source,
            match rev_w {
                Some(w) => w,
                None => weight,
            },
        );
    }

    /// Takes the front event from the queue and hands it to the device it is addressed
    /// to. Tells the neighbor for want of whose session the event was skipped, if it was.
    fn dispatch_next(&mut self) -> (r: (Option<RouterId>, Result<(), NetworkError>))
        requires
            old(self).wf(),
            old(self)@.queue.len() > 0,
        ensures
            final(self).wf(),
            (final(self)@, r.1) == old(self)@.deliver_next(),
            r.0 == old(self)@.next_delivery().skipped,
    {
        let event = match self.queue.pop_front() {
            Some(event) => event,
            None => {
                return (None, Ok(()));
            },
        };
        assert(queue_view(&self.queue) =~= old(self)@.queue.drop_first());
        let to = match &event {
            Event::Bgp(_, to, _) => *to,
        };
        if to as usize >= self.devices.len() {
            return (None, Err(NetworkError::DeviceNotFound(to)));
        }
        // the device handles the event
        let event_result = match &mut self.devices[to as usize] {
            Device::Internal(r) => r.handle_event(event, &mut self.queue),
            Device::External(r) => r.handle_event(event, &mut self.queue),
        };
        proof {
            assert(self.devices@ =~= old(self).devices@.update(to as int, self.devices@[to as int]));
            lemma_devices_update(old(self).devices@, to as int, self.devices@[to as int]);
            if old(self)@.devices[to as int] is External {
                assert(self@.devices =~= old(self)@.devices);
            }
        }
        match event_result {
            Ok(()) => (None, Ok(())),
            Err(DeviceError::NoBgpSession(peer)) => (Some(peer), Ok(())),
            Err(e) => (None, Err(NetworkError::DeviceError(e))),
        }
    }

    /// Delivers one event: the front event is handed to the device it is addressed to
    /// and what the device emits is appended to the queue. Returns the account of the
    /// delivery, which tells whether the event was skipped, and the error if the
    /// delivery failed for good. Nothing happens on an empty queue.
    pub fn deliver_next(&mut self) -> (r: (Option<Delivery>, Result<(), NetworkError>))
        requires
            old(self).wf(),
        ensures
            final(self).wf(),
            old(self)@.queue.len() == 0 ==> r.0 is None && r.1 is Ok && final(self)@ == old(self)@,
            old(self)@.queue.len() > 0 ==> r.0 is Some && r.0->Some_0@ == old(
                self,
            )@.next_delivery() && (final(self)@, r.1) == old(self)@.deliver_next(),
    {
        if self.queue.len() == 0 {
            return (None, Ok(()));
        }
        let event = self.queue[0].clone();
        assert(event@ == old(self)@.queue[0]);
        let (skipped, result) = self.dispatch_next();
        (Some(Delivery { event, skipped }), result)
    }

    /// Drives the queue as `do_queue` does, and appends the account of every delivery
    /// to `log`, in the order of the deliveries.
    pub fn do_queue_logged(&mut self, log: &mut Vec<Delivery>) -> (r: Result<bool, NetworkError>)
        requires
            old(self).wf(),
        ensures
            final(self).wf(),
            (final(self)@, r) == old(self)@.do_queue(),
            deliveries_view(final(log)@) == deliveries_view(old(log)@) + old(self)@.deliveries(
                old(self)@.budget(),
            ),
    {
        let mut remaining_iter: usize = match self.stop_after {
            Some(n) => n,
            None => usize::MAX,
        };
        assert(deliveries_view(log@) + self@.deliveries(remaining_iter as nat) =~= deliveries_view(
            old(log)@,
        ) + old(self)@.deliveries(old(self)@.budget()));
        loop
            invariant
                self.wf(),
                old(self)@.do_queue() == self@.run(remaining_iter as nat),
                deliveries_view(log@) + self@.deliveries(remaining_iter as nat) == deliveries_view(
                    old(log)@,
                ) + old(self)@.deliveries(old(self)@.budget()),
            decreases remaining_iter,
        {
            if self.queue.len() == 0 {
                assert(deliveries_view(log@) + Seq::<DeliveryView>::empty() =~= deliveries_view(
                    log@,
                ));
                return Ok(true);
            }
            if remaining_iter == 0 {
                assert(deliveries_view(log@) + Seq::<DeliveryView>::empty() =~= deliveries_view(
                    log@,
                ));
                return Ok(false);
            }
            let ghost before = self@;
            let ghost logged = deliveries_view(log@);
            let ghost budget = remaining_iter as nat;
            remaining_iter = remaining_iter - 1;
            let (delivery, result) = self.deliver_next();
            match delivery {
                Some(d) => {
                    assert(deliveries_view(log@.push(d)) =~= logged.push(d@));
                    log.push(d);
                },
                None => {},
            }
            proof {
                let rest = match result {
                    Err(_) => Seq::<DeliveryView>::empty(),
                    Ok(()) => self@.deliveries(remaining_iter as nat),
                };
                assert(before.deliveries(budget) == seq![before.next_delivery()] + rest);
                assert(logged.push(before.next_delivery()) + rest =~= logged + (
                seq![before.next_delivery()] + rest));
            }
            match result {
                Ok(()) => {},
                Err(e) => {
                    assert(deliveries_view(log@) + Seq::<DeliveryView>::empty()
                        =~= deliveries_view(log@));
                    return Err(e);
                },
            }
        }
    }

    /// Drives the queue: the front event is handed to its device and what the device
    /// emits is appended, until the queue is drained or the iteration cap is reached.
    ///
    /// Returns `Ok(true)` when the queue is drained and `Ok(false)` when the cap is
    /// reached with events pending; the pending events stay in the queue. A router
    /// that holds no session for the sender of a message skips the message; any other
    /// error ends the drive, with the failed event taken from the queue. To learn of
    /// every delivery and of the skipped ones, use `do_queue_logged`.
    pub fn do_queue(&mut self) -> (r: Result<bool, NetworkError>)
        requires
            old(self).wf(),
        ensures
            final(self).wf(),
            (final(self)@, r) == old(self)@.do_queue(),
    {
        let mut remaining_iter: usize = match self.stop_after {
            Some(n) => n,
            None => usize::MAX,
        };
        loop
            invariant
                self.wf(),
                old(self)@.do_queue() == self@.run(remaining_iter as nat),
            decreases remaining_iter,
        {
            if self.queue.len() == 0 {
                return Ok(true);
            }
            if remaining_iter == 0 {
                return Ok(false);
            }
            remaining_iter = remaining_iter - 1;
            match self.dispatch_next().1 {
                Ok(()) => {},
                Err(e) => {
                    return Err(e);
                },
            }
        }
    }

    /// Runs the decision process and the dissemination of one router for all its known
    /// prefixes. The events are queued, not handled: `do_queue` handles them.
    pub fn schedule_update_router(&mut self, router: RouterId) -> (r: Result<(), NetworkError>)
        requires
            old(self).wf(),
        ensures
            final(self).wf(),
            (final(self)@, r) == old(self)@.schedule_update(router),
    {
        if !self.is_internal_router(router) {
            return Err(NetworkError::DeviceNotFound(router));
        }
        let done = match &mut self.devices[router as usize] {
            Device::Internal(r) => match r.bgp_decision_process() {
                Ok(()) => r.bgp_route_dissemination(&mut self.queue),
                Err(e) => Err(e),
            },
            Device::External(_) => Ok(()),
        };
        proof {
            assert(self.devices@ =~= old(self).devices@.update(
                router as int,
                self.devices@[router as int],
            ));
            lemma_devices_update(old(self).devices@, router as int, self.devices@[router as int]);
            let decided = old(self)@.router(router).decide_all();
            if decided.1 is Err {
                assert(queue_view(&self.queue) == old(self)@.queue);
            }
        }
        match done {
            Ok(()) => Ok(()),
            Err(e) => Err(NetworkError::DeviceError(e)),
        }
    }

    /// Schedules updates for the listed routers, in order, up to the first that fails.
    fn schedule_updates(&mut self, ids: &Vec<RouterId>) -> (r: Result<(), NetworkError>)
        requires
            old(self).wf(),
        ensures
            final(self).wf(),
            (final(self)@, r) == old(self)@.schedule_upto(ids@, ids@.len() as int),
    {
        let mut k: usize = 0;
        while k < ids.len()
            invariant
                k <= ids.len(),
                self.wf(),
                old(self)@.schedule_upto(ids@, k as int) == (self@, Ok::<(), NetworkError>(())),
            decreases ids.len() - k,
        {
            match self.schedule_update_router(ids[k]) {
                Ok(()) => {},
                Err(e) => {
                    proof {
                        old(self)@.lemma_schedule_upto_err(ids@, k + 1, ids@.len() as int);
                    }
                    return Err(e);
                },
            }
            k = k + 1;
        }
        Ok(())
    }

    /// Schedules updates for the listed routers, then drives the queue.
    fn update_and_run(&mut self, ids: &Vec<RouterId>) -> (r: Result<bool, NetworkError>)
        requires
            old(self).wf(),
        ensures
            final(self).wf(),
            (final(self)@, r) == old(self)@.update_and_run(ids@),
    {
        match self.schedule_updates(ids) {
            Ok(()) => self.do_queue(),
            Err(e) => Err(e),
        }
    }

    /// Establishes a session at the internal router `at`.
    fn establish_at(&mut self, at: RouterId, peer: RouterId, kind: BgpSessionType) -> (r: Result<
        (),
        DeviceError,
    >)
        requires
            old(self).wf(),
            old(self)@.is_internal(at),
        ensures
            final(self).wf(),
            match old(self)@.router(at).establish_session(peer, kind) {
                Ok(s) => r is Ok && final(self)@ == old(self)@.with_router(at, s),
                Err(e) => r == Err::<(), DeviceError>(e) && final(self)@ == old(self)@,
            },
    {
        let done = match &mut self.devices[at as usize] {
            Device::Internal(r) => r.establish_bgp_session(peer, kind),
            Device::External(_) => Ok(()),
        };
        proof {
            assert(self.devices@ =~= old(self).devices@.update(at as int, self.devices@[at as int]));
            lemma_devices_update(old(self).devices@, at as int, self.devices@[at as int]);
            if done is Err {
                assert(self@.devices =~= old(self)@.devices);
            }
        }
        done
    }

    /// Closes a session at the internal router `at`.
    fn close_at(&mut self, at: RouterId, peer: RouterId) -> (r: Result<(), DeviceError>)
        requires
            old(self).wf(),
            old(self)@.is_internal(at),
        ensures
            final(self).wf(),
            match old(self)@.router(at).close_session(peer) {
                Ok(s) => r is Ok && final(self)@ == old(self)@.with_router(at, s),
                Err(e) => r == Err::<(), DeviceError>(e) && final(self)@ == old(self)@,
            },
    {
        let done = match &mut self.devices[at as usize] {
            Device::Internal(r) => r.close_bgp_session(peer),
            Device::External(_) => Ok(()),
        };
        proof {
            assert(self.devices@ =~= old(self).devices@.update(at as int, self.devices@[at as int]));
            lemma_devices_update(old(self).devices@, at as int, self.devices@[at as int]);
            if done is Err {
                assert(self@.devices =~= old(self)@.devices);
            }
        }
        done
    }

    /// Adds an iBGP session between `source` and `target`. With `route_reflector` the
    /// source is a route reflector and the target its client; else the two are regular
    /// peers. With `update` both routers then run their BGP process and the queue is
    /// driven.
    ///
    /// The error names the router that is no internal router. Where that is the
    /// target, the source keeps the session it has established.
    pub fn add_ibgp_session(
        &mut self,
        source: RouterId,
        target: RouterId,
        route_reflector: bool,
        update: bool,
    ) -> (r: Result<bool, NetworkError>)
        requires
            old(self).wf(),
        ensures
            final(self).wf(),
            (final(self)@, r) == old(self)@.add_ibgp_session(
                source,
                target,
                route_reflector,
                update,
            ),
    {
        let kind = if route_reflector {
            BgpSessionType::IBgpClient
        } else {
            BgpSessionType::IBgpPeer
        };
        if !self.is_internal_router(source) {
            return Err(NetworkError::DeviceNotFound(source));
        }
        match self.establish_at(source, target, kind) {
            Ok(()) => {},
            Err(e) => {
                return Err(NetworkError::DeviceError(e));
            },
        }
        if !self.is_internal_router(target) {
            return Err(NetworkError::DeviceNotFound(target));
        }
        match self.establish_at(target, source, BgpSessionType::IBgpPeer) {
            Ok(()) => {},
            Err(e) => {
                return Err(NetworkError::DeviceError(e));
            },
        }
        if update {
            let mut ids: Vec<RouterId> = Vec::new();
            ids.push(source);
            ids.push(target);
            assert(ids@ =~= seq![source, target]);
            self.update_and_run(&ids)
        } else {
            Ok(true)
        }
    }

    /// Removes the iBGP session between `source` and `target`, on both sides. With
    /// `update` both routers then run their BGP process and the queue is driven.
    pub fn remove_ibgp_session(&mut self, source: RouterId, target: RouterId, update: bool) -> (r:
        Result<bool, NetworkError>)
        requires
            old(self).wf(),
        ensures
            final(self).wf(),
            (final(self)@, r) == old(self)@.remove_ibgp_session(source, target, update),
    {
        if !self.is_internal_router(source) {
            return Err(NetworkError::DeviceNotFound(source));
        }
        match self.close_at(source, target) {
            Ok(()) => {},
            Err(e) => {
                return Err(NetworkError::DeviceError(e));
            },
        }
        if !self.is_internal_router(target) {
            return Err(NetworkError::DeviceNotFound(target));
        }
        match self.close_at(target, source) {
            Ok(()) => {},
            Err(e) => {
                return Err(NetworkError::DeviceError(e));
            },
        }
        if update {
            let mut ids: Vec<RouterId> = Vec::new();
            ids.push(source);
            ids.push(target);
            assert(ids@ =~= seq![source, target]);
            self.update_and_run(&ids)
        } else {
            Ok(true)
        }
    }

    /// Lets the router `id` replace its IGP table by the one derived from the topology.
    fn write_table(&mut self, id: RouterId) -> (r: Result<(), NetworkError>)
        requires
            old(self).wf(),
        ensures
            final(self).wf(),
            (final(self)@, r) == old(self)@.write_table(id),
            r is Ok <==> old(self)@.is_internal(id),
    {
        if !self.is_internal_router(id) {
            return Err(NetworkError::DeviceNotFound(id));
        }
        let done = match &mut self.devices[id as usize] {
            Device::Internal(r) => r.write_igp_forwarding_table(&self.net),
            Device::External(_) => Ok(()),
        };
        proof {
            assert(self.devices@ =~= old(self).devices@.update(id as int, self.devices@[id as int]));
            lemma_devices_update(old(self).devices@, id as int, self.devices@[id as int]);
            if done is Err {
                assert(self@.devices =~= old(self)@.devices);
            }
        }
        match done {
            Ok(()) => Ok(()),
            Err(e) => Err(NetworkError::DeviceError(e)),
        }
    }

    /// Writes the IGP forwarding tables of all internal routers, in the order of their
    /// ids. With `update` all of them then run their BGP process, in the same order, and
    /// the queue is driven. For another order, use `write_igp_fw_tables_order`.
    ///
    /// Returns `Ok(true)` when the queue is drained or was not driven, `Ok(false)` when
    /// the iteration cap is reached, and the error of the first step that fails.
    pub fn write_igp_fw_tables(&mut self, update: bool) -> (r: Result<bool, NetworkError>)
        requires
            old(self).wf(),
        ensures
            final(self).wf(),
            (final(self)@, r) == old(self)@.write_igp_fw_tables(update),
            !update ==> r == Ok::<bool, NetworkError>(true),
    {
        let count = self.devices.len();
        // the IGP tables
        let mut k: usize = 0;
        while k < count
            invariant
                k <= count,
                count == old(self)@.devices.len(),
                self.wf(),
                self@.devices.len() == count,
                forall|i: RouterId| #[trigger] self@.is_internal(i) == old(self)@.is_internal(i),
                old(self)@.write_all_upto(k as int) == (self@, Ok::<(), NetworkError>(())),
            decreases count - k,
        {
            if self.is_internal_router(k as u32) {
                let ghost before = self@;
                match self.write_table(k as u32) {
                    Ok(()) => {},
                    Err(e) => {
                        proof {
                            old(self)@.lemma_write_all_upto_err(k + 1, count as int);
                        }
                        return Err(e);
                    },
                }
                assert forall|i: RouterId| #[trigger]
                    self@.is_internal(i) == old(self)@.is_internal(i) by {
                    assert(before.is_internal(i) == old(self)@.is_internal(i));
                }
            }
            k = k + 1;
        }
        if update {
            // the BGP processes
            let ghost written = self@;
            let mut k: usize = 0;
            while k < count
                invariant
                    k <= count,
                    count == written.devices.len(),
                    self.wf(),
                    self@.devices.len() == count,
                    forall|i: RouterId| #[trigger] self@.is_internal(i) == written.is_internal(i),
                    written.schedule_all_upto(k as int) == (self@, Ok::<(), NetworkError>(())),
                    update,
                    old(self)@.devices.len() == count,
                    old(self)@.write_all_upto(count as int) == (
                        written,
                        Ok::<(), NetworkError>(()),
                    ),
                decreases count - k,
            {
                if self.is_internal_router(k as u32) {
                    let ghost before = self@;
                    match self.schedule_update_router(k as u32) {
                        Ok(()) => {},
                        Err(e) => {
                            proof {
                                written.lemma_schedule_all_upto_err(k + 1, count as int);
                            }
                            return Err(e);
                        },
                    }
                    assert forall|i: RouterId| #[trigger]
                        self@.is_internal(i) == written.is_internal(i) by {
                        assert(before.is_internal(i) == written.is_internal(i));
                    }
                }
                k = k + 1;
            }
            self.do_queue()
        } else {
            Ok(true)
        }
    }

    /// Writes the IGP forwarding tables of the listed routers, in the order of the list.
    /// With `update` they then run their BGP process, in the same order, and the queue
    /// is driven.
    ///
    /// Returns `Ok(true)` when the queue is drained or was not driven, `Ok(false)` when
    /// the iteration cap is reached, and the error of the first step that fails.
    pub fn write_igp_fw_tables_order(&mut self, order: Vec<RouterId>, update: bool) -> (r: Result<
        bool,
        NetworkError,
    >)
        requires
            old(self).wf(),
        ensures
            final(self).wf(),
            (final(self)@, r) == old(self)@.write_igp_fw_tables_order(order@, update),
            !update && (forall|i: int|
                0 <= i < order@.len() ==> old(self)@.is_internal(#[trigger] order@[i])) ==> r
                == Ok::<bool, NetworkError>(true),
    {
        let mut k: usize = 0;
        while k < order.len()
            invariant
                k <= order.len(),
                self.wf(),
                old(self)@.write_tables_upto(order@, k as int) == (
                    self@,
                    Ok::<(), NetworkError>(()),
                ),
                forall|i: RouterId| #[trigger] self@.is_internal(i) == old(self)@.is_internal(i),
            decreases order.len() - k,
        {
            let ghost before = self@;
            match self.write_table(order[k]) {
                Ok(()) => {},
                Err(e) => {
                    proof {
                        old(self)@.lemma_write_tables_upto_err(order@, k + 1, order@.len() as int);
                    }
                    return Err(e);
                },
            }
            assert forall|i: RouterId| #[trigger]
                self@.is_internal(i) == old(self)@.is_internal(i) by {
                assert(before.is_internal(i) == old(self)@.is_internal(i));
            }
            k = k + 1;
        }
        if update {
            self.update_and_run(&order)
        } else {
            Ok(true)
        }
    }

    /// Lets the external router `source` advertise a route to all its neighbors. With
    /// `update` the queue is then driven.
    pub fn advertise_external_route(
        &mut self,
        source: RouterId,
        prefix: Prefix,
        as_path: Vec<AsId>,
        med: Option<u32>,
        update: bool,
    ) -> (r: Result<bool, NetworkError>)
        requires
            old(self).wf(),
        ensures
            final(self).wf(),
            (final(self)@, r) == old(self)@.advertise_external_route(
                source,
                prefix,
                as_path@,
                med,
                update,
            ),
    {
        if !self.is_external_router(source) {
            return Err(NetworkError::DeviceNotFound(source));
        }
        // the messages to the neighbors
        match &self.devices[source as usize] {
            Device::External(e) => {
                e.advertise_prefix(prefix, as_path, med, &mut self.queue);
            },
            Device::Internal(_) => {},
        }
        if update {
            self.do_queue()
        } else {
            Ok(true)
        }
    }

    /// Lets the external router `source` withdraw its route from all its neighbors.
    /// With `update` the queue is then driven.
    pub fn retract_external_route(&mut self, source: RouterId, prefix: Prefix, update: bool) -> (r:
        Result<bool, NetworkError>)
        requires
            old(self).wf(),
        ensures
            final(self).wf(),
            (final(self)@, r) == old(self)@.retract_external_route(source, prefix, update),
    {
        if !self.is_external_router(source) {
            return Err(NetworkError::DeviceNotFound(source));
        }
        // the messages to the neighbors
        match &self.devices[source as usize] {
            Device::External(e) => {
                e.widthdraw_prefix(prefix, &mut self.queue);
            },
            Device::Internal(_) => {},
        }
        if update {
            self.do_queue()
        } else {
            Ok(true)
        }
    }

    /// The names of the devices of a path.
    fn names_of(&self, path: &Vec<RouterId>) -> (names: Vec<&'static str>)
        requires
            forall|i: int| 0 <= i < path@.len() ==> (#[trigger] path@[i]) < self@.devices.len(),
        ensures
            names_view(names@) == self@.names(path@),
    {
        let mut names: Vec<&'static str> = Vec::new();
        let mut i: usize = 0;
        while i < path.len()
            invariant
                i <= path.len(),
                forall|i: int| 0 <= i < path@.len() ==> (#[trigger] path@[i]) < self@.devices.len(),
                names_view(names@) == self@.names(path@).subrange(0, i as int),
            decreases path.len() - i,
        {
            let name = match &self.devices[path[i] as usize] {
                Device::Internal(r) => r.name(),
                Device::External(r) => r.name(),
            };
            proof {
                let id = path@[i as int];
                assert(self@.devices[id as int] == self.devices@[id as int]@);
                assert(name@ == self@.devices[id as int].name());
                assert(self@.names(path@)[i as int] == name@);
                assert(names_view(names@.push(name)) =~= names_view(names@).push(name@));
                assert(self@.names(path@).subrange(0, i + 1) =~= self@.names(path@).subrange(
                    0,
                    i as int,
                ).push(name@));
            }
            names.push(name);
            i = i + 1;
        }
        assert(self@.names(path@).subrange(0, path@.len() as int) =~= self@.names(path@));
        names
    }

    /// Traces the forwarding path from the internal router `source` towards `prefix`:
    /// every router hands over to its IGP next hop, up to the first external router.
    /// The trace fails with the names along the path where a router comes up a second
    /// time (a forwarding loop), or has no next hop to hand over to (a black hole): no
    /// selected route, or one whose next hop is unknown or unreachable in its IGP
    /// table.
    pub fn get_route(&self, source: RouterId, prefix: Prefix) -> (r: Result<
        Vec<RouterId>,
        NetworkError,
    >)
        ensures
            route_result(self@, r, self@.route(source, prefix)),
    {
        // a trace starts inside of the network
        if self.is_external_router(source) {
            return Err(NetworkError::DeviceIsExternalRouter(source));
        }
        let count = self.devices.len();
        let mut visited_routers: HashSet<RouterId> = HashSet::new();
        let mut result: Vec<RouterId> = Vec::new();
        let mut current_node = source;
        let mut fuel: usize = count;
        loop
            invariant
                count == self@.devices.len(),
                fuel <= count,
                forall|id: RouterId| #[trigger] visited_routers@.contains(id) <==> result@.contains(id),
                forall|i: int| 0 <= i < result@.len() ==> (#[trigger] result@[i]) < count,
                self@.route(source, prefix) == self@.trace(
                    current_node,
                    prefix,
                    result@,
                    fuel as nat,
                ),
            decreases fuel,
        {
            if current_node as usize >= count {
                return Err(NetworkError::DeviceNotFound(current_node));
            }
            let ghost walked = result@;
            result.push(current_node);
            // the router joins the path
            match &self.devices[current_node as usize] {
                Device::Internal(r) => {
                    // still inside of the network
                    if !visited_routers.insert(current_node) {
                        return Err(NetworkError::ForwardingLoop(self.names_of(&result)));
                    }
                    proof {
                        assert forall|id: RouterId| #[trigger]
                            visited_routers@.contains(id) <==> result@.contains(id) by {
                            if id == current_node {
                                assert(result@[walked.len() as int] == current_node);
                            } else if walked.contains(id) {
                                let j = choose|j: int| 0 <= j < walked.len() && walked[j] == id;
                                assert(result@[j] == id);
                            } else if result@.contains(id) {
                                let j = choose|j: int| 0 <= j < result@.len() && result@[j] == id;
                                assert(walked[j] == id);
                            }
                        }
                    }
                    current_node = match r.get_next_hop(prefix) {
                        Some(router_id) => router_id,
                        None => {
                            return Err(NetworkError::ForwardingBlackHole(self.names_of(&result)));
                        },
                    };
                    if fuel == 0 {
                        return Err(NetworkError::ForwardingLoop(self.names_of(&result)));
                    }
                    fuel = fuel - 1;
                },
                Device::External(_) => {
                    return Ok(result);
                },
            }
        }
    }
}

/// The contents of a list of names.
pub open spec fn names_view(names: Seq<&'static str>) -> Seq<Seq<char>> {
    names.map_values(|n: &'static str| n@)
}

/// A returned route answers to the route of the model: the same path, or the error
/// that stands for the same fault, with the names of the routers along the path.
pub open spec fn route_result(
    net: NetworkState,
    r: Result<Vec<RouterId>, NetworkError>,
    expected: Result<Seq<RouterId>, TraceFault>,
) -> bool {
    match expected {
        Ok(path) => r matches Ok(found) && found@ == path,
        Err(TraceFault::External(id)) => r matches Err(NetworkError::DeviceIsExternalRouter(e))
            && e == id,
        Err(TraceFault::NotFound(id)) => r matches Err(NetworkError::DeviceNotFound(e)) && e == id,
        Err(TraceFault::Loop(path)) => r matches Err(NetworkError::ForwardingLoop(names))
            && names_view(names@) == net.names(path),
        Err(TraceFault::BlackHole(path)) => r matches Err(NetworkError::ForwardingBlackHole(names))
            && names_view(names@) == net.names(path),
    }
}

/// The states of a list of devices after one of them is replaced.
proof fn lemma_devices_update(devices: Seq<Device>, i: int, d: Device)
    requires
        0 <= i < devices.len(),
    ensures
        devices_view(devices.update(i, d)) == devices_view(devices).update(i, d@),
{
    assert(devices_view(devices.update(i, d)) =~= devices_view(devices).update(i, d@));
}

} // verus!
