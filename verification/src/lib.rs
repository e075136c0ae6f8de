//! Simulation of BGP control-plane convergence inside one autonomous system.
//!
//! Internal routers run the three-phase BGP process (ingest, decide, disseminate) on top of
//! an IGP forwarding table derived from shortest paths; the network driver feeds their
//! messages through one FIFO queue until it drains or an iteration cap is reached.

pub mod bgp;
pub mod event;
pub mod external_router;
pub mod igp;
pub mod igp_theorems;
pub mod net_state;
pub mod network;
pub mod preservation;
pub mod rib;
pub mod router;
pub mod state;
pub mod theorems;
pub mod types;

pub use event::{Event, EventQueue};
pub use igp::IgpNetwork;
pub use types::{
    AsId, DeviceError, IgpCost, LinkWeight, NetworkDevice, NetworkError, Prefix, RouterId,
};
