//! What the engine reads from the chain that hosts it.

use vstd::prelude::*;
use anchor_lang::prelude::{Clock, SolanaSysvar};

verus! {

/// One reading of the host's clock.
#[derive(Clone, Copy, Debug, PartialEq, Eq, Structural)]
pub struct ClockReading {
    /// The slot counter.
    pub slot: u64,
    /// The wall-clock time, in seconds since the epoch.
    pub unix_timestamp: i64,
}

/// Reads the host's clock through `Clock::get` of `anchor_lang`'s prelude.
///
/// Nothing is claimed of the reading: slot and time are whatever the host
/// reports, and two readings may differ. `None` stands for a host that
/// offers no clock, which is every host but the chain itself.
#[verifier::external_body]
pub(crate) fn read_clock() -> (reading: Option<ClockReading>) {
    match Clock::get() {
        Ok(clock) => Some(ClockReading { slot: clock.slot, unix_timestamp: clock.unix_timestamp }),
        Err(_) => None,
    }
}

} // verus!
