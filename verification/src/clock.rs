//! The time source of the drivers.

use vstd::prelude::*;

verus! {

/// Monotonic millisecond clock supplied by the application.
pub trait Clock {
    /// `t` is a time that this clock can show. Only a verified implementation has to say it.
    open spec fn shows(&self, t: u64) -> bool {
        arbitrary()
    }

    /// The current time in milliseconds.
    fn now_ms(&self) -> (t: u64)
        ensures
            self.shows(t),
    ;
}

} // verus!
