//! The external router: an eBGP peer outside of the AS.

use vstd::prelude::*;
use crate::bgp::{BgpEvent, BgpEventView, BgpRoute, RouteView};
use crate::event::{queue_view, Event, EventQueue, EventView};
use crate::types::{AsId, DeviceError, NetworkDevice, Prefix, RouterId};

verus! {

/// Mathematical state of an external router.
pub struct ExternalState {
    pub name: Seq<char>,
    pub router_id: RouterId,
    pub as_id: AsId,
    /// The routers it is connected to, in the order in which they were connected.
    pub neighbors: Seq<RouterId>,
}

impl ExternalState {
    /// The invariant of an external router: every neighbor is listed once.
    pub open spec fn wf(self) -> bool {
        self.neighbors.no_duplicates()
    }

    /// The state after a connection to `neighbor` is made.
    pub open spec fn connect(self, neighbor: RouterId) -> ExternalState {
        if self.neighbors.contains(neighbor) {
            self
        } else {
            ExternalState { neighbors: self.neighbors.push(neighbor), ..self }
        }
    }

    /// The route that the router advertises for `prefix`: it names itself as next hop and
    /// sets no local preference.
    pub open spec fn advertised_route(self, prefix: Prefix, as_path: Seq<AsId>, med: Option<u32>) -> RouteView {
        RouteView { prefix, as_path, next_hop: self.router_id, local_pref: None, med }
    }

    /// A connection keeps the invariant.
    pub proof fn lemma_connect_wf(self, neighbor: RouterId)
        requires
            self.wf(),
        ensures
            self.connect(neighbor).wf(),
            self.connect(neighbor).neighbors.contains(neighbor),
    {
        let after = self.connect(neighbor).neighbors;
        if !self.neighbors.contains(neighbor) {
            let n = self.neighbors.len() as int;
            assert(after[n] == neighbor);
            assert forall|i: int, j: int|
                0 <= i < after.len() && 0 <= j < after.len() && i != j implies after[i]
                != after[j] by {
                if i < n && j < n {
                    assert(self.neighbors[i] != self.neighbors[j]);
                } else if i < n {
                    assert(self.neighbors[i] == after[i]);
                } else {
                    assert(self.neighbors[j] == after[j]);
                }
            }
        }
    }

    /// Every neighbor gets the message once: as many messages as neighbors, each from
    /// this router, the one at a position for the neighbor at that position, and no two
    /// for the same neighbor.
    pub proof fn lemma_one_message_per_neighbor(self, message: BgpEventView)
        requires
            self.wf(),
        ensures
            self.to_all_neighbors(message).len() == self.neighbors.len(),
            forall|i: int|
                0 <= i < self.neighbors.len() ==> #[trigger] self.to_all_neighbors(message)[i]
                    == EventView::Bgp(self.router_id, self.neighbors[i], message),
            forall|i: int, j: int|
                0 <= i < j < self.neighbors.len() ==> (#[trigger] self.to_all_neighbors(
                    message,
                )[i]) != (#[trigger] self.to_all_neighbors(message)[j]),
    {
        assert forall|i: int, j: int| 0 <= i < j < self.neighbors.len() implies (
        #[trigger] self.to_all_neighbors(message)[i]) != (#[trigger] self.to_all_neighbors(
            message,
        )[j]) by {
            assert(self.neighbors[i] != self.neighbors[j]);
        }
    }

    /// The same message from this router to each of its neighbors, in their order.
    pub open spec fn to_all_neighbors(self, message: BgpEventView) -> Seq<EventView> {
        Seq::new(
            self.neighbors.len(),
            |i: int| EventView::Bgp(self.router_id, self.neighbors[i], message),
        )
    }
}

/// A stub peer outside of the AS: it only emits UPDATE and WITHDRAW messages and
/// never runs the decision process.
#[derive(Debug)]
pub struct ExternalRouter {
    name: &'static str,
    router_id: RouterId,
    as_id: AsId,
    /// The routers this one is connected to. Each is to be listed once: whoever fills
    /// the list by hand keeps it so.
    pub neighbors: Vec<RouterId>,
}

impl View for ExternalRouter {
    type V = ExternalState;

    closed spec fn view(&self) -> ExternalState {
        ExternalState {
            name: self.name@,
            router_id: self.router_id,
            as_id: self.as_id,
            neighbors: self.neighbors@,
        }
    }
}

impl Clone for ExternalRouter {
    fn clone(&self) -> (r: Self)
        ensures
            r@ == self@,
    {
        let mut neighbors: Vec<RouterId> = Vec::new();
        let mut i: usize = 0;
        while i < self.neighbors.len()
            invariant
                i <= self.neighbors.len(),
                neighbors@ == self.neighbors@.subrange(0, i as int),
            decreases self.neighbors.len() - i,
        {
            neighbors.push(self.neighbors[i]);
            assert(neighbors@ =~= self.neighbors@.subrange(0, i + 1));
            i = i + 1;
        }
        assert(self.neighbors@.subrange(0, self.neighbors.len() as int) =~= self.neighbors@);
        ExternalRouter { name: self.name, router_id: self.router_id, as_id: self.as_id, neighbors }
    }
}

impl NetworkDevice for ExternalRouter {
    open spec fn valid(&self) -> bool {
        self@.wf()
    }

    open spec fn id(&self) -> RouterId {
        self@.router_id
    }

    open spec fn autonomous_system(&self) -> AsId {
        self@.as_id
    }

    open spec fn label(&self) -> Seq<char> {
        self@.name
    }

    /// An external router without neighbors.
    fn new(name: &'static str, router_id: RouterId, as_id: AsId) -> (r: Self)
        ensures
            r@ == (ExternalState { name: name@, router_id, as_id, neighbors: Seq::empty() }),
    {
        Self { name, router_id, as_id, neighbors: Vec::new() }
    }

    /// An external router ignores every event.
    fn handle_event(&mut self, _event: Event, _queue: &mut EventQueue) -> (r: Result<
        (),
        DeviceError,
    >)
        ensures
            r is Ok,
            final(self)@ == old(self)@,
            queue_view(final(_queue)) == queue_view(old(_queue)),
    {
        Ok(())
    }

    /// The id of the router.
    fn router_id(&self) -> (r: RouterId) {
        self.router_id
    }

    /// The AS of the router.
    fn as_id(&self) -> (r: AsId) {
        self.as_id
    }

    /// The name of the router.
    fn name(&self) -> (r: &'static str) {
        self.name
    }
}

impl ExternalRouter {
    /// Records a connection to `neighbor`, once.
    pub fn add_neighbor(&mut self, neighbor: RouterId)
        ensures
            final(self)@ == old(self)@.connect(neighbor),
            old(self).valid() ==> final(self).valid(),
    {
        proof {
            if old(self).valid() {
                old(self)@.lemma_connect_wf(neighbor);
            }
        }
        let mut i: usize = 0;
        while i < self.neighbors.len()
            invariant
                i <= self.neighbors.len(),
                self == old(self),
                forall|j: int| 0 <= j < i ==> #[trigger] self.neighbors@[j] != neighbor,
            decreases self.neighbors.len() - i,
        {
            if self.neighbors[i] == neighbor {
                assert(self.neighbors@[i as int] == neighbor);
                return ;
            }
            i = i + 1;
        }
        self.neighbors.push(neighbor);
    }

    /// Sends `message` to every neighbor.
    fn send_to_neighbors(&self, message: &BgpEvent, queue: &mut EventQueue)
        requires
            self.valid(),
        ensures
            queue_view(final(queue)) == queue_view(old(queue)) + self@.to_all_neighbors(message@),
    {
        let ghost all = self@.to_all_neighbors(message@);
        assert(queue_view(queue) =~= queue_view(old(queue)) + all.subrange(0, 0));
        let mut i: usize = 0;
        while i < self.neighbors.len()
            invariant
                i <= self.neighbors.len(),
                all == self@.to_all_neighbors(message@),
                queue_view(queue) == queue_view(old(queue)) + all.subrange(0, i as int),
            decreases self.neighbors.len() - i,
        {
            let event = Event::Bgp(self.router_id, self.neighbors[i], message.clone());
            proof {
                assert(queue@.push(event).map_values(|e: Event| e@) =~= queue@.map_values(
                    |e: Event| e@,
                ).push(event@));
                assert(all.subrange(0, i + 1) =~= all.subrange(0, i as int).push(event@));
                assert(queue_view(queue).push(event@) =~= queue_view(old(queue)) + all.subrange(
                    0,
                    i + 1,
                ));
            }
            queue.push_back(event);
            i = i + 1;
        }
        assert(all.subrange(0, all.len() as int) =~= all);
    }

    /// Queues a BGP UPDATE with the route for every neighbor: one message for each, in
    /// the order of the neighbors.
    pub fn advertise_prefix(
        &self,
        prefix: Prefix,
        as_path: Vec<AsId>,
        med: Option<u32>,
        queue: &mut EventQueue,
    )
        requires
            self.valid(),
        ensures
            queue_view(final(queue)) == queue_view(old(queue)) + self@.to_all_neighbors(
                BgpEventView::Update(self@.advertised_route(prefix, as_path@, med)),
            ),
    {
        let route = BgpRoute { prefix, as_path, next_hop: self.router_id, local_pref: None, med };
        let bgp_event = BgpEvent::Update(route);
        self.send_to_neighbors(&bgp_event, queue);
    }

    /// Queues a BGP WITHDRAW of the prefix for every neighbor: one message for each, in
    /// the order of the neighbors.
    pub fn widthdraw_prefix(&self, prefix: Prefix, queue: &mut EventQueue)
        requires
            self.valid(),
        ensures
            queue_view(final(queue)) == queue_view(old(queue)) + self@.to_all_neighbors(
                BgpEventView::Withdraw(prefix),
            ),
    {
        self.send_to_neighbors(&BgpEvent::Withdraw(prefix), queue);
    }
}

} // verus!
