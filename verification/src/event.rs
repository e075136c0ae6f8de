//! Events exchanged between the devices of a network.

use vstd::prelude::*;
use std::collections::VecDeque;
use crate::bgp::{BgpEvent, BgpEventView};
use crate::types::RouterId;

verus! {

/// Mathematical content of an [`Event`].
pub enum EventView {
    Bgp(RouterId, RouterId, BgpEventView),
}

/// Event to handle.
#[derive(Debug)]
pub enum Event {
    /// BGP event from `#0` to `#1`.
    Bgp(RouterId, RouterId, BgpEvent),
}

impl View for Event {
    type V = EventView;

    open spec fn view(&self) -> EventView {
        match self {
            Event::Bgp(from, to, msg) => EventView::Bgp(*from, *to, msg@),
        }
    }
}

impl Clone for Event {
    fn clone(&self) -> (r: Self)
        ensures
            r@ == self@,
    {
        match self {
            Event::Bgp(from, to, msg) => Event::Bgp(*from, *to, msg.clone()),
        }
    }
}

/// Event queue for enqueuing events.
pub type EventQueue = VecDeque<Event>;

/// The contents of a list of events.
pub open spec fn events_view(events: Seq<Event>) -> Seq<EventView> {
    events.map_values(|e: Event| e@)
}

/// The messages waiting in a queue, front first.
pub open spec fn queue_view(queue: &EventQueue) -> Seq<EventView> {
    queue@.map_values(|e: Event| e@)
}

} // verus!
