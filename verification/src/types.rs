//! Identifiers, weights and error types shared by every module.

use vstd::prelude::*;
use vstd::std_specs::convert::FromSpecImpl;
use crate::event::{queue_view, Event, EventQueue};

verus! {

/// Router identification: the dense index of the router in the topology.
pub type RouterId = u32;

/// Weight of a single directed IGP link.
pub type LinkWeight = u32;

/// Total weight of an IGP path. A path has fewer than 2^32 links of weight
/// below 2^32 each, so a path cost always fits.
pub type IgpCost = u64;

/// IP prefix (simple representation); equality is exact.
#[derive(PartialEq, Eq, Structural, PartialOrd, Ord, Hash, Debug, Clone, Copy)]
pub struct Prefix(pub u32);

/// AS number.
#[derive(PartialEq, Eq, Structural, PartialOrd, Ord, Hash, Debug, Clone, Copy)]
pub struct AsId(pub u32);

/// A device of the network: something that has an identity and takes events.
pub trait NetworkDevice: Sized {
    /// The invariant of the device.
    spec fn valid(&self) -> bool;

    /// The id the device was created with.
    spec fn id(&self) -> RouterId;

    /// The AS the device was created in.
    spec fn autonomous_system(&self) -> AsId;

    /// The name the device was created with.
    spec fn label(&self) -> Seq<char>;

    /// Creates the device.
    fn new(name: &'static str, router_id: RouterId, as_id: AsId) -> (device: Self)
        ensures
            device.valid(),
            device.id() == router_id,
            device.autonomous_system() == as_id,
            device.label() == name@,
    ;

    /// Handles an event: the device keeps its
    /// identity, and whatever it has to say is appended to the queue.
    fn handle_event(&mut self, event: Event, queue: &mut EventQueue) -> (r: Result<
        (),
        DeviceError,
    >)
        requires
            old(self).valid(),
        ensures
            final(self).valid(),
            final(self).id() == old(self).id(),
            final(self).autonomous_system() == old(self).autonomous_system(),
            final(self).label() == old(self).label(),
            queue_view(old(queue)).is_prefix_of(queue_view(final(queue))),
    ;

    /// The id of the device.
    fn router_id(&self) -> (r: RouterId)
        ensures
            r == self.id(),
    ;

    /// The AS of the device.
    fn as_id(&self) -> (r: AsId)
        ensures
            r == self.autonomous_system(),
    ;

    /// The name of the device.
    fn name(&self) -> (r: &'static str)
        ensures
            r@ == self.label(),
    ;
}

/// Errors raised by a single device.
#[derive(PartialEq, Eq, Structural, Debug, Clone, Copy)]
pub enum DeviceError {
    /// A BGP session with this peer is already established.
    SessionAlreadyExists(RouterId),
    /// No BGP session with this peer is established.
    NoBgpSession(RouterId),
    /// The router is not known in the IGP forwarding table.
    RouterNotFound(RouterId),
    /// The router is marked as unreachable in the IGP forwarding table.
    RouterNotReachable(RouterId),
    /// No shortest-path tree rooted at this router could be derived from the IGP topology.
    BadIgpTopology(RouterId),
}

/// Errors raised by the network driver.
#[derive(PartialEq, Debug)]
pub enum NetworkError {
    /// A device error that the driver cannot handle.
    DeviceError(DeviceError),
    /// The device is not present in the topology.
    DeviceNotFound(RouterId),
    /// An internal router was needed, but the device is an external router.
    DeviceIsExternalRouter(RouterId),
    /// A forwarding loop was detected; carries the names along the path walked so far.
    ForwardingLoop(Vec<&'static str>),
    /// A router without a usable route was reached; carries the names along the path.
    ForwardingBlackHole(Vec<&'static str>),
}

impl From<DeviceError> for NetworkError {
    fn from(e: DeviceError) -> (r: NetworkError) {
        NetworkError::DeviceError(e)
    }
}

impl FromSpecImpl<DeviceError> for NetworkError {
    open spec fn obeys_from_spec() -> bool {
        true
    }

    open spec fn from_spec(e: DeviceError) -> NetworkError {
        NetworkError::DeviceError(e)
    }
}

} // verus!
