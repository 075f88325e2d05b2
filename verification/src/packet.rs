//! Frame codec: header, security block, payload, MAC and trailer.

pub mod codec;
pub mod control;
pub mod scb;
pub mod trailer;

pub use codec::{PacketBuilder, ParsedPacket, MAC_LEN};
pub use control::{Address, ControlByte, CtrlFlags, Sqn};
pub use scb::{Scb, ScbRef, ScsType};
