use bgpsim::bgp::{BgpEvent, BgpSessionType};
use bgpsim::event::Event;
use bgpsim::external_router::ExternalRouter;
use bgpsim::network::{Delivery, Network};
use bgpsim::{AsId, DeviceError, EventQueue, NetworkDevice, NetworkError, Prefix, RouterId};

/// e0 - b0 - r0 - r1 - b1 - e1, all weights 1, route reflection in both clusters.
fn two_exits() -> (Network, [RouterId; 6]) {
    let mut t = Network::new();
    let e0 = t.add_external_router("E0", AsId(1));
    let b0 = t.add_router("B0");
    let r0 = t.add_router("R0");
    let r1 = t.add_router("R1");
    let b1 = t.add_router("B1");
    let e1 = t.add_external_router("E1", AsId(1));
    t.add_edge(e0, b0, 1, None).unwrap();
    t.add_edge(b0, r0, 1, None).unwrap();
    t.add_edge(r0, r1, 1, None).unwrap();
    t.add_edge(r1, b1, 1, None).unwrap();
    t.add_edge(b1, e1, 1, None).unwrap();
    t.add_ibgp_session(r0, b0, true, true).unwrap();
    t.add_ibgp_session(r1, b1, true, true).unwrap();
    t.add_ibgp_session(r0, r1, false, true).unwrap();
    t.write_igp_fw_tables(true).unwrap();
    (t, [e0, b0, r0, r1, b1, e1])
}

fn path() -> Vec<AsId> {
    vec![AsId(1), AsId(2), AsId(3)]
}

fn selected(t: &Network, ids: &[RouterId], prefix: Prefix) -> Vec<Option<(RouterId, RouterId)>> {
    ids.iter()
        .map(|id| {
            t.get_router(*id)
                .unwrap()
                .get_selected_bgp_route(prefix)
                .map(|e| (e.route.next_hop, e.from_id))
        })
        .collect()
}

#[test]
fn devices_are_numbered_in_order() {
    let mut t = Network::new();
    assert_eq!(t.device_count(), 0);
    assert_eq!(t.add_router("A"), 0);
    assert_eq!(t.add_external_router("X", AsId(7)), 1);
    assert_eq!(t.add_router("B"), 2);
    assert_eq!(t.device_count(), 3);
    assert_eq!(t.get_router_name(0), Ok("A"));
    assert_eq!(t.get_router_name(1), Ok("X"));
    assert_eq!(t.get_router_name(2), Ok("B"));
    assert_eq!(t.get_router_name(3), Err(NetworkError::DeviceNotFound(3)));
    assert_eq!(t.get_router(0).unwrap().as_id(), AsId(65001));
    assert_eq!(t.get_router(0).unwrap().router_id(), 0);
    assert_eq!(t.get_router(2).unwrap().name(), "B");
    assert_eq!(t.get_router(1).err(), Some(NetworkError::DeviceNotFound(1)));
    assert_eq!(t.get_router(3).err(), Some(NetworkError::DeviceNotFound(3)));
    assert_eq!(t.get_router_mut(1).err(), Some(NetworkError::DeviceNotFound(1)));
    assert_eq!(t.get_router_mut(9).err(), Some(NetworkError::DeviceNotFound(9)));
    assert_eq!(t.get_external_router(1).unwrap().as_id(), AsId(7));
    assert_eq!(t.get_external_router(1).unwrap().router_id(), 1);
    assert_eq!(
        t.get_external_router(0).err(),
        Some(NetworkError::DeviceNotFound(0))
    );
}

#[test]
fn edges_make_links_and_ebgp_sessions() {
    let mut t = Network::new();
    let a = t.add_router("A");
    let x = t.add_external_router("X", AsId(7));
    let y = t.add_external_router("Y", AsId(8));
    assert_eq!(t.link_count(), 0);
    assert_eq!(t.add_edge(a, x, 3, Some(4)), Ok(()));
    assert_eq!(t.link_count(), 2);
    assert_eq!(t.get_external_router(x).unwrap().neighbors, vec![a]);
    // the session exists: a second edge cannot establish it again
    assert_eq!(
        t.add_edge(x, a, 1, None),
        Err(NetworkError::DeviceError(DeviceError::SessionAlreadyExists(x)))
    );
    assert_eq!(t.link_count(), 4);
    assert_eq!(t.get_external_router(x).unwrap().neighbors, vec![a]);
    // two external routers are connected without a session
    assert_eq!(t.add_edge(x, y, 1, None), Ok(()));
    assert_eq!(t.get_external_router(x).unwrap().neighbors, vec![a, y]);
    assert_eq!(t.get_external_router(y).unwrap().neighbors, vec![x]);
    assert_eq!(t.add_edge(a, 9, 1, None), Err(NetworkError::DeviceNotFound(9)));
    assert_eq!(t.add_edge(9, a, 1, None), Err(NetworkError::DeviceNotFound(9)));
    assert_eq!(t.link_count(), 6);
    // costs follow the direction of the link
    t.write_igp_fw_tables(false).unwrap();
    assert_eq!(
        t.get_router(a).unwrap().igp_forwarding_table.get(&x),
        Some(&Some((x, 1)))
    );
}

#[test]
fn weights_change_only_when_tables_are_written() {
    let (mut t, [e0, b0, r0, _, _, _]) = two_exits();
    assert_eq!(
        t.get_router(r0).unwrap().igp_forwarding_table.get(&e0),
        Some(&Some((b0, 2)))
    );
    let links = t.link_count();
    t.update_edge_weight(b0, r0, 5, Some(7));
    assert_eq!(t.link_count(), links);
    assert_eq!(
        t.get_router(r0).unwrap().igp_forwarding_table.get(&e0),
        Some(&Some((b0, 2)))
    );
    assert_eq!(t.write_igp_fw_tables(false), Ok(true));
    assert_eq!(
        t.get_router(r0).unwrap().igp_forwarding_table.get(&e0),
        Some(&Some((b0, 8)))
    );
    assert_eq!(
        t.get_router(b0).unwrap().igp_forwarding_table.get(&r0),
        Some(&Some((r0, 5)))
    );
    // an unknown end changes nothing
    t.update_edge_weight(b0, 99, 1, None);
    assert_eq!(t.link_count(), links);
}

#[test]
fn tables_in_a_chosen_order() {
    let (mut t, [e0, b0, r0, r1, _, _]) = two_exits();
    t.update_edge_weight(b0, r0, 5, None);
    assert_eq!(t.write_igp_fw_tables_order(vec![r0], false), Ok(true));
    assert_eq!(
        t.get_router(r0).unwrap().igp_forwarding_table.get(&e0),
        Some(&Some((b0, 6)))
    );
    assert_eq!(
        t.get_router(r1).unwrap().igp_forwarding_table.get(&e0),
        Some(&Some((r0, 3)))
    );
    assert_eq!(
        t.write_igp_fw_tables_order(vec![r1, e0], true),
        Err(NetworkError::DeviceNotFound(e0))
    );
    assert_eq!(
        t.get_router(r1).unwrap().igp_forwarding_table.get(&e0),
        Some(&Some((r0, 7)))
    );
    assert_eq!(t.write_igp_fw_tables_order(vec![], true), Ok(true));
}

#[test]
fn sessions_need_internal_routers() {
    let (mut t, [e0, b0, r0, _, b1, _]) = two_exits();
    assert_eq!(
        t.add_ibgp_session(e0, b0, false, false),
        Err(NetworkError::DeviceNotFound(e0))
    );
    assert_eq!(
        t.add_ibgp_session(77, b0, false, false),
        Err(NetworkError::DeviceNotFound(77))
    );
    assert_eq!(
        t.add_ibgp_session(r0, b0, false, false),
        Err(NetworkError::DeviceError(DeviceError::SessionAlreadyExists(b0)))
    );
    assert_eq!(
        t.remove_ibgp_session(b0, b1, false),
        Err(NetworkError::DeviceError(DeviceError::NoBgpSession(b1)))
    );
    assert_eq!(
        t.remove_ibgp_session(e0, b0, false),
        Err(NetworkError::DeviceNotFound(e0))
    );
    assert_eq!(
        t.schedule_update_router(e0),
        Err(NetworkError::DeviceNotFound(e0))
    );
    assert_eq!(t.schedule_update_router(b0), Ok(()));
    // the error names the router that is missing, also where it is the target
    assert_eq!(
        t.add_ibgp_session(r0, e0, false, false),
        Err(NetworkError::DeviceNotFound(e0))
    );
    assert_eq!(
        t.add_ibgp_session(b0, 88, false, false),
        Err(NetworkError::DeviceNotFound(88))
    );
    assert_eq!(
        t.remove_ibgp_session(r0, 88, false),
        Err(NetworkError::DeviceError(DeviceError::NoBgpSession(88)))
    );
    assert_eq!(t.add_ibgp_session(b0, b1, false, false), Ok(true));
    assert_eq!(t.remove_ibgp_session(b0, b1, true), Ok(true));
}

#[test]
fn route_reflector_session_kinds() {
    let mut t = Network::new();
    let a = t.add_router("A");
    let b = t.add_router("B");
    let c = t.add_router("C");
    t.add_ibgp_session(a, b, true, false).unwrap();
    t.add_ibgp_session(a, c, false, false).unwrap();
    // a is reflector for b: b may not be taken as a client twice
    assert_eq!(
        t.get_router_mut(a)
            .unwrap()
            .establish_bgp_session(b, BgpSessionType::IBgpPeer),
        Err(DeviceError::SessionAlreadyExists(b))
    );
    // a route that a learns from its peer c is reflected to its client b, not back
    let mut queue = EventQueue::new();
    for (id, next_hop) in [(a, a), (b, b), (c, c)] {
        t.get_router_mut(a)
            .unwrap()
            .igp_forwarding_table
            .insert(id, Some((next_hop, 1)));
    }
    t.get_router_mut(a)
        .unwrap()
        .handle_event(
            Event::Bgp(
                c,
                a,
                BgpEvent::Update(bgpsim::bgp::BgpRoute {
                    prefix: Prefix(1),
                    as_path: vec![],
                    next_hop: c,
                    local_pref: None,
                    med: None,
                }),
            ),
            &mut queue,
        )
        .unwrap();
    assert_eq!(queue.len(), 1);
    assert!(matches!(queue.pop_front(), Some(Event::Bgp(0, 1, BgpEvent::Update(_)))));
}

#[test]
fn only_external_routers_advertise() {
    let (mut t, [e0, b0, _, _, _, _]) = two_exits();
    assert_eq!(
        t.advertise_external_route(b0, Prefix(0), path(), None, true),
        Err(NetworkError::DeviceNotFound(b0))
    );
    assert_eq!(
        t.advertise_external_route(50, Prefix(0), path(), None, true),
        Err(NetworkError::DeviceNotFound(50))
    );
    assert_eq!(
        t.retract_external_route(b0, Prefix(0), true),
        Err(NetworkError::DeviceNotFound(b0))
    );
    assert_eq!(t.queued_events().len(), 0);
    assert_eq!(t.advertise_external_route(e0, Prefix(0), path(), Some(5), false), Ok(true));
    let queued = t.queued_events();
    assert_eq!(queued.len(), 1);
    match &queued[0] {
        Event::Bgp(from, to, BgpEvent::Update(route)) => {
            assert_eq!(*from, e0);
            assert_eq!(*to, b0);
            assert_eq!(route.prefix, Prefix(0));
            assert_eq!(route.as_path, path());
            assert_eq!(route.next_hop, e0);
            assert_eq!(route.local_pref, None);
            assert_eq!(route.med, Some(5));
        }
        _ => panic!("an update was expected"),
    }
    assert_eq!(t.retract_external_route(e0, Prefix(0), false), Ok(true));
    let queued = t.queued_events();
    assert_eq!(queued.len(), 2);
    assert!(matches!(
        &queued[1],
        Event::Bgp(0, 1, BgpEvent::Withdraw(Prefix(0)))
    ));
}

#[test]
fn external_router_speaks_to_its_neighbors_in_order() {
    let mut x = ExternalRouter::new("X", 9, AsId(4));
    assert_eq!(x.name(), "X");
    assert_eq!(x.router_id(), 9);
    assert_eq!(x.as_id(), AsId(4));
    x.add_neighbor(3);
    x.add_neighbor(1);
    x.add_neighbor(3);
    assert_eq!(x.neighbors, vec![3, 1]);
    let mut queue = EventQueue::new();
    x.advertise_prefix(Prefix(8), vec![AsId(4)], None, &mut queue);
    x.widthdraw_prefix(Prefix(8), &mut queue);
    assert_eq!(queue.len(), 4);
    let mut seen = Vec::new();
    for event in queue.iter() {
        match event {
            Event::Bgp(from, to, BgpEvent::Update(route)) => {
                assert_eq!(*from, 9);
                assert_eq!(route.next_hop, 9);
                assert_eq!(route.local_pref, None);
                assert_eq!(route.med, None);
                assert_eq!(route.as_path, vec![AsId(4)]);
                seen.push((*to, true));
            }
            Event::Bgp(from, to, BgpEvent::Withdraw(prefix)) => {
                assert_eq!(*from, 9);
                assert_eq!(*prefix, Prefix(8));
                seen.push((*to, false));
            }
        }
    }
    assert_eq!(seen, vec![(3, true), (1, true), (3, false), (1, false)]);
    // an external router ignores what it is told
    let again = x.clone();
    let event = queue.pop_front().unwrap();
    assert_eq!(x.handle_event(event, &mut queue), Ok(()));
    assert_eq!(queue.len(), 3);
    assert_eq!(x.neighbors, again.neighbors);
}

#[test]
fn the_cap_counts_handled_events() {
    let (mut t, [e0, _, _, _, _, _]) = two_exits();
    t.advertise_external_route(e0, Prefix(0), path(), None, false).unwrap();
    assert_eq!(t.queued_events().len(), 1);
    // nothing may be handled: the queue stays as it is
    t.stop_after_queue(Some(0));
    assert_eq!(t.do_queue(), Ok(false));
    assert_eq!(t.queued_events().len(), 1);
    // one event may be handled: b0 hears of the route and tells r0
    t.stop_after_queue(Some(1));
    assert_eq!(t.do_queue(), Ok(false));
    assert_eq!(t.queued_events().len(), 1);
    assert!(matches!(
        &t.queued_events()[0],
        Event::Bgp(1, 2, BgpEvent::Update(_))
    ));
    // without a cap the queue drains
    t.stop_after_queue(None);
    assert_eq!(t.do_queue(), Ok(true));
    assert_eq!(t.queued_events().len(), 0);
    // an empty queue is drained under any cap
    t.stop_after_queue(Some(0));
    assert_eq!(t.do_queue(), Ok(true));
}

#[test]
fn a_drained_queue_stays_drained() {
    let (mut t, ids) = two_exits();
    let [e0, _, _, _, _, e1] = ids;
    assert_eq!(t.advertise_external_route(e0, Prefix(0), path(), None, true), Ok(true));
    assert_eq!(t.advertise_external_route(e1, Prefix(0), path(), None, true), Ok(true));
    assert_eq!(t.queued_events().len(), 0);
    let before = selected(&t, &ids[1..5], Prefix(0));
    assert_eq!(t.do_queue(), Ok(true));
    assert_eq!(t.do_queue(), Ok(true));
    assert_eq!(t.queued_events().len(), 0);
    assert_eq!(selected(&t, &ids[1..5], Prefix(0)), before);
}

#[test]
fn external_routers_ignore_events() {
    let mut t = Network::new();
    let x = t.add_external_router("X", AsId(1));
    let y = t.add_external_router("Y", AsId(2));
    t.add_edge(x, y, 1, None).unwrap();
    // x is connected to y: y ignores what it hears
    assert_eq!(t.advertise_external_route(x, Prefix(0), path(), None, false), Ok(true));
    assert_eq!(t.queued_events().len(), 1);
    assert_eq!(t.do_queue(), Ok(true));
    assert_eq!(t.queued_events().len(), 0);
    assert_eq!(t.get_external_router(y).unwrap().neighbors, vec![x]);
}

#[test]
fn event_for_a_missing_device_is_fatal() {
    let (mut t, [e0, b0, _, _, _, _]) = two_exits();
    // b0 holds a session with a device that does not exist
    t.get_router_mut(b0)
        .unwrap()
        .establish_bgp_session(99, BgpSessionType::IBgpClient)
        .unwrap();
    assert_eq!(
        t.advertise_external_route(e0, Prefix(0), path(), None, true),
        Err(NetworkError::DeviceNotFound(99))
    );
    // the event that failed is gone; what r0 had to say to r1 is still pending
    let queued = t.queued_events();
    assert_eq!(queued.len(), 1);
    assert!(matches!(&queued[0], Event::Bgp(2, 3, BgpEvent::Update(_))));
}

#[test]
fn decision_errors_stop_the_queue() {
    // the IGP tables are not written: the next hop of the reflected route is unknown
    let mut t = Network::new();
    let e0 = t.add_external_router("E0", AsId(1));
    let b0 = t.add_router("B0");
    let r0 = t.add_router("R0");
    t.add_edge(e0, b0, 1, None).unwrap();
    t.add_edge(b0, r0, 1, None).unwrap();
    t.add_ibgp_session(r0, b0, true, true).unwrap();
    assert_eq!(
        t.advertise_external_route(e0, Prefix(0), path(), None, true),
        Err(NetworkError::DeviceError(DeviceError::RouterNotFound(e0)))
    );
    assert_eq!(
        t.schedule_update_router(r0),
        Err(NetworkError::DeviceError(DeviceError::RouterNotFound(e0)))
    );
}

#[test]
fn message_without_a_session_is_skipped() {
    let (mut t, [e0, b0, r0, _, _, _]) = two_exits();
    t.advertise_external_route(e0, Prefix(0), path(), None, false).unwrap();
    t.stop_after_queue(Some(1));
    assert_eq!(t.do_queue(), Ok(false));
    // the update of b0 for r0 is under way when r0 closes the session
    t.get_router_mut(r0).unwrap().close_bgp_session(b0).unwrap();
    t.stop_after_queue(None);
    assert_eq!(t.do_queue(), Ok(true));
    assert!(t
        .get_router(r0)
        .unwrap()
        .get_selected_bgp_route(Prefix(0))
        .is_none());
}

#[test]
fn routes_of_the_two_exits() {
    let (mut t, [e0, b0, r0, r1, b1, e1]) = two_exits();
    assert_eq!(
        t.get_route(b0, Prefix(0)),
        Err(NetworkError::ForwardingBlackHole(vec!["B0"]))
    );
    assert_eq!(
        t.get_route(e0, Prefix(0)),
        Err(NetworkError::DeviceIsExternalRouter(e0))
    );
    assert_eq!(t.get_route(60, Prefix(0)), Err(NetworkError::DeviceNotFound(60)));
    t.advertise_external_route(e0, Prefix(0), path(), None, true).unwrap();
    assert_eq!(t.get_route(b1, Prefix(0)), Ok(vec![b1, r1, r0, b0, e0]));
    assert_eq!(t.get_route(b1, Prefix(1)),
        Err(NetworkError::ForwardingBlackHole(vec!["B1"])));
    t.advertise_external_route(e1, Prefix(0), path(), None, true).unwrap();
    assert_eq!(t.get_route(b0, Prefix(0)), Ok(vec![b0, e0]));
    assert_eq!(t.get_route(r0, Prefix(0)), Ok(vec![r0, b0, e0]));
    assert_eq!(t.get_route(r1, Prefix(0)), Ok(vec![r1, b1, e1]));
    assert_eq!(t.get_route(b1, Prefix(0)), Ok(vec![b1, e1]));
}

#[test]
fn stale_tables_make_a_forwarding_loop() {
    let (mut t, [e0, b0, r0, _, _, _]) = two_exits();
    t.advertise_external_route(e0, Prefix(0), path(), None, true).unwrap();
    // r0 is told to reach e0 over itself
    t.get_router_mut(r0)
        .unwrap()
        .igp_forwarding_table
        .insert(e0, Some((r0, 2)));
    assert_eq!(
        t.get_route(r0, Prefix(0)),
        Err(NetworkError::ForwardingLoop(vec!["R0", "R0"]))
    );
    // b0 is told to reach e0 over r0, and r0 over b0
    t.get_router_mut(r0)
        .unwrap()
        .igp_forwarding_table
        .insert(e0, Some((b0, 2)));
    t.get_router_mut(b0)
        .unwrap()
        .igp_forwarding_table
        .insert(e0, Some((r0, 2)));
    assert_eq!(
        t.get_route(b0, Prefix(0)),
        Err(NetworkError::ForwardingLoop(vec!["B0", "R0", "B0"]))
    );
    // an unreachable or unknown next hop is a black hole
    t.get_router_mut(r0)
        .unwrap()
        .igp_forwarding_table
        .insert(e0, None);
    assert_eq!(
        t.get_route(b0, Prefix(0)),
        Err(NetworkError::ForwardingBlackHole(vec!["B0", "R0"]))
    );
    t.get_router_mut(r0)
        .unwrap()
        .igp_forwarding_table
        .remove(&e0);
    assert_eq!(
        t.get_route(r0, Prefix(0)),
        Err(NetworkError::ForwardingBlackHole(vec!["R0"]))
    );
    // a next hop that is no device ends the trace
    t.get_router_mut(r0)
        .unwrap()
        .igp_forwarding_table
        .insert(e0, Some((40, 2)));
    assert_eq!(t.get_route(r0, Prefix(0)), Err(NetworkError::DeviceNotFound(40)));
}

#[test]
fn withdraw_restores_the_routes() {
    let (mut t, ids) = two_exits();
    let [e0, b0, r0, r1, b1, e1] = ids;
    let internal = [b0, r0, r1, b1];
    let empty = selected(&t, &internal, Prefix(0));
    assert_eq!(empty, vec![None, None, None, None]);
    assert_eq!(t.advertise_external_route(e0, Prefix(0), path(), None, true), Ok(true));
    let one_exit = selected(&t, &internal, Prefix(0));
    assert_eq!(
        one_exit,
        vec![Some((e0, e0)), Some((e0, b0)), Some((e0, r0)), Some((e0, r1))]
    );
    assert_eq!(t.advertise_external_route(e1, Prefix(0), path(), None, true), Ok(true));
    let two = selected(&t, &internal, Prefix(0));
    assert_eq!(
        two,
        vec![Some((e0, e0)), Some((e0, b0)), Some((e1, b1)), Some((e1, e1))]
    );
    // withdrawing the second exit: everybody routes towards the first again
    assert_eq!(t.retract_external_route(e1, Prefix(0), true), Ok(true));
    assert_eq!(selected(&t, &internal, Prefix(0)), one_exit);
    assert_eq!(t.get_route(b1, Prefix(0)), Ok(vec![b1, r1, r0, b0, e0]));
    // advertising it again with the same parameters: the state of two exits
    assert_eq!(t.advertise_external_route(e1, Prefix(0), path(), None, true), Ok(true));
    assert_eq!(selected(&t, &internal, Prefix(0)), two);
    // withdrawing both: nothing is left
    assert_eq!(t.retract_external_route(e1, Prefix(0), true), Ok(true));
    assert_eq!(t.retract_external_route(e0, Prefix(0), true), Ok(true));
    assert_eq!(selected(&t, &internal, Prefix(0)), empty);
}

#[test]
fn closed_session_purges_and_reopened_session_restores() {
    let (mut t, ids) = two_exits();
    let [e0, b0, r0, r1, b1, e1] = ids;
    let internal = [b0, r0, r1, b1];
    t.advertise_external_route(e0, Prefix(0), path(), None, true).unwrap();
    t.advertise_external_route(e1, Prefix(0), path(), None, true).unwrap();
    let converged = selected(&t, &internal, Prefix(0));
    // r0 closes its session with b0: what it learned from b0 is gone
    t.get_router_mut(r0).unwrap().close_bgp_session(b0).unwrap();
    let known = t.get_router(r0).unwrap().get_known_bgp_routes(Prefix(0)).unwrap();
    assert_eq!(known.len(), 1);
    assert_eq!(known[0].from_id, r1);
    t.get_router_mut(r0).unwrap().bgp_decision_process().unwrap();
    // the route learned over the session with r1 is selected
    assert_eq!(
        selected(&t, &[r0], Prefix(0)),
        vec![Some((e1, r1))]
    );
    t.get_router_mut(r0)
        .unwrap()
        .establish_bgp_session(b0, BgpSessionType::IBgpClient)
        .unwrap();
    // both sides closed and opened again, and the network converged: as before
    assert_eq!(t.remove_ibgp_session(r0, b0, true), Ok(true));
    assert_eq!(t.add_ibgp_session(r0, b0, true, true), Ok(true));
    assert_eq!(selected(&t, &internal, Prefix(0)), converged);
}

#[test]
fn selected_ibgp_routes_resolve_in_the_igp() {
    let (mut t, ids) = two_exits();
    let [e0, b0, r0, r1, b1, e1] = ids;
    t.advertise_external_route(e0, Prefix(0), path(), None, true).unwrap();
    t.advertise_external_route(e1, Prefix(0), path(), None, true).unwrap();
    for id in [b0, r0, r1, b1] {
        let r = t.get_router(id).unwrap();
        let chosen = r.get_selected_bgp_route(Prefix(0)).unwrap();
        if chosen.from_type.is_ibgp() {
            let hop = r.igp_forwarding_table.get(&chosen.route.next_hop);
            assert!(matches!(hop, Some(Some(_))));
            assert_eq!(chosen.igp_cost, hop.unwrap().map(|h| h.1));
        }
        let known = r.get_known_bgp_routes(Prefix(0)).unwrap();
        assert!(known.iter().any(|k| *k == chosen));
        assert!(known.iter().all(|k| !k.preferred(&chosen)));
    }
}

#[test]
fn bad_gadget_under_other_caps() {
    for cap in [50, 200, 1000, 5000] {
        let mut t = Network::new();
        let e0 = t.add_external_router("E0", AsId(65100));
        let e1 = t.add_external_router("E1", AsId(65101));
        let e2 = t.add_external_router("E2", AsId(65102));
        let b0 = t.add_router("B0");
        let b1 = t.add_router("B1");
        let b2 = t.add_router("B2");
        let r0 = t.add_router("R0");
        let r1 = t.add_router("R1");
        let r2 = t.add_router("R2");
        t.add_edge(e0, b0, 1, None).unwrap();
        t.add_edge(e1, b1, 1, None).unwrap();
        t.add_edge(e2, b2, 1, None).unwrap();
        t.add_edge(b0, r0, 5, None).unwrap();
        t.add_edge(b1, r1, 5, None).unwrap();
        t.add_edge(b2, r2, 5, None).unwrap();
        t.add_edge(r0, b1, 1, None).unwrap();
        t.add_edge(r1, b2, 1, None).unwrap();
        t.add_edge(r2, b0, 1, None).unwrap();
        t.add_ibgp_session(r0, b0, true, true).unwrap();
        t.add_ibgp_session(r1, b1, true, true).unwrap();
        t.add_ibgp_session(r2, b2, true, true).unwrap();
        t.add_ibgp_session(r0, r1, false, true).unwrap();
        t.add_ibgp_session(r1, r2, false, true).unwrap();
        t.add_ibgp_session(r2, r0, false, true).unwrap();
        t.write_igp_fw_tables(true).unwrap();
        t.stop_after_queue(Some(cap));
        let p = Prefix(0);
        assert_eq!(
            t.advertise_external_route(e2, p, vec![AsId(0), AsId(1)], None, true),
            Ok(true)
        );
        assert_eq!(
            t.advertise_external_route(e1, p, vec![AsId(0), AsId(1)], None, true),
            Ok(true)
        );
        assert_eq!(
            t.advertise_external_route(e0, p, vec![AsId(0), AsId(1)], None, true),
            Ok(false)
        );
        assert!(t.queued_events().len() > 0);
    }
}

#[test]
fn every_delivery_is_accounted_for() {
    let (mut t, [e0, b0, r0, r1, b1, e1]) = two_exits();
    t.advertise_external_route(e0, Prefix(0), path(), None, false).unwrap();
    // one event at a time
    let (delivery, result) = t.deliver_next();
    assert_eq!(result, Ok(()));
    let delivery = delivery.unwrap();
    assert!(matches!(&delivery.event, Event::Bgp(0, 1, BgpEvent::Update(_))));
    assert_eq!(delivery.skipped, None);
    assert_eq!(t.queued_events().len(), 1);
    // the rest of the drive
    let mut log: Vec<Delivery> = Vec::new();
    assert_eq!(t.do_queue_logged(&mut log), Ok(true));
    let seen: Vec<(RouterId, RouterId, bool)> = log
        .iter()
        .map(|d| match &d.event {
            Event::Bgp(from, to, msg) => (*from, *to, matches!(msg, BgpEvent::Update(_))),
        })
        .collect();
    assert_eq!(
        seen,
        vec![(b0, r0, true), (r0, r1, true), (r1, b1, true), (b1, e1, true)]
    );
    assert!(log.iter().all(|d| d.skipped.is_none()));
    // nothing is left to deliver
    let (delivery, result) = t.deliver_next();
    assert!(delivery.is_none());
    assert_eq!(result, Ok(()));
    assert_eq!(t.do_queue_logged(&mut log), Ok(true));
    assert_eq!(log.len(), 4);
}

#[test]
fn skipped_messages_are_accounted_for() {
    let (mut t, [e0, b0, r0, _, _, _]) = two_exits();
    t.advertise_external_route(e0, Prefix(0), path(), None, false).unwrap();
    t.stop_after_queue(Some(1));
    let mut log: Vec<Delivery> = Vec::new();
    assert_eq!(t.do_queue_logged(&mut log), Ok(false));
    assert_eq!(log.len(), 1);
    // the update of b0 for r0 is under way when r0 closes the session
    t.get_router_mut(r0).unwrap().close_bgp_session(b0).unwrap();
    t.stop_after_queue(None);
    assert_eq!(t.do_queue_logged(&mut log), Ok(true));
    assert_eq!(log.len(), 2);
    assert!(matches!(&log[1].event, Event::Bgp(1, 2, BgpEvent::Update(_))));
    assert_eq!(log[1].skipped, Some(b0));
}

#[test]
fn failed_delivery_is_accounted_for() {
    let (mut t, [e0, b0, _, _, _, _]) = two_exits();
    t.get_router_mut(b0)
        .unwrap()
        .establish_bgp_session(99, BgpSessionType::IBgpClient)
        .unwrap();
    t.advertise_external_route(e0, Prefix(0), path(), None, false).unwrap();
    let mut log: Vec<Delivery> = Vec::new();
    assert_eq!(
        t.do_queue_logged(&mut log),
        Err(NetworkError::DeviceNotFound(99))
    );
    assert_eq!(log.len(), 3);
    assert!(matches!(&log[2].event, Event::Bgp(1, 99, BgpEvent::Update(_))));
    assert_eq!(log[2].skipped, None);
}

#[test]
fn tables_are_written_for_every_router_of_the_topology() {
    // also where nothing is linked
    let mut t = Network::new();
    let a = t.add_router("A");
    let b = t.add_router("B");
    let x = t.add_external_router("X", AsId(9));
    assert_eq!(t.write_igp_fw_tables(false), Ok(true));
    assert_eq!(t.write_igp_fw_tables_order(vec![b, a], false), Ok(true));
    let table = &t.get_router(a).unwrap().igp_forwarding_table;
    assert_eq!(table.len(), 3);
    assert_eq!(table.get(&a), Some(&Some((a, 0))));
    assert_eq!(table.get(&b), Some(&None));
    assert_eq!(table.get(&x), Some(&None));
}
