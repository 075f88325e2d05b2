//! Drivers for the two ends of an OSDP bus, with the framing, the command and reply bodies
//! and the secure channel that they use.

pub mod bytes;
pub mod clock;
pub mod command;
pub mod driver;
pub mod error;
pub mod packet;
pub mod reply;
pub mod secure;
pub mod transport;

pub use error::Error;

use vstd::prelude::*;

verus! {

/// Start-of-message byte that opens every frame.
pub const SOM: u8 = 0x53;

/// Room to reserve for one frame of the largest size seen on a bus.
pub const MAX_BUS_PACKET: usize = 1440;

/// How long a PD may take to answer, in milliseconds.
pub const REPLY_DELAY_MS: u32 = 200;

/// Silence after which a PD counts as off-line, in milliseconds.
pub const OFFLINE_THRESHOLD_MS: u32 = 8000;

} // verus!
