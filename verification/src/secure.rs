//! Secure channel: key derivation, handshake sessions and frame protection.

pub mod cipher;
pub mod frame;
pub mod session;

pub use session::{
    Challenged, Cryptogrammed, Disconnected, PdChallenged, Secure, SecureRandom, Session, SCBK_D,
};
