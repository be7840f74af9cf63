//! Local-network audio sharing core: peer discovery over UDP broadcast and a
//! role-gated audio bridge that relays audio frames from a player to a speaker.
//!
//! The library holds the verified logic: the peer registry, the wire codec for
//! the discovery messages, interface selection, and the decision functions of
//! the discovery and bridge loops. The surrounding process (sockets, timers,
//! audio devices, GUI) drives these functions and performs the I/O.
use vstd::prelude::*;

pub mod addr;
pub mod registry;
pub mod codec;
pub mod iface;
pub mod discovery;
pub mod bridge;
pub mod state;

verus! {

/// UDP port on which discovery signals are broadcast and answered.
pub const DISCOVERY_PORT: u16 = 26030;

/// UDP port used by an on-demand rescan round, distinct from the listener's port.
pub const RESCAN_PORT: u16 = 26031;

/// TCP port carrying the framed audio stream from player to speaker.
pub const AUDIO_PORT: u16 = 26032;

} // verus!
