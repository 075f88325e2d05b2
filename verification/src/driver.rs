//! Drivers for the two ends of the bus.

pub mod acu;
pub mod feed;
pub mod laws;
pub mod pd;
