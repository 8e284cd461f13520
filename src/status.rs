//! Timed status messages.
use vstd::prelude::*;

verus! {

/// A message shown under the status bar until its hold time has passed.
/// Times are in milliseconds on a clock that the caller reads.
pub struct StatusMsg {
    pub data: Vec<u8>,
    /// When the message was issued.
    pub timestamp: u64,
    /// How long the message stays on screen.
    pub timeout: u64,
}

/// Time elapsed from `t0` to `now`; zero if the clock reads earlier.
pub open spec fn elapsed(t0: u64, now: u64) -> int {
    if now >= t0 {
        now - t0
    } else {
        0
    }
}

/// Whether a message issued at `t0` and held for `d` is shown at `now`.
pub open spec fn is_shown(t0: u64, d: u64, now: u64) -> bool {
    elapsed(t0, now) <= d
}

} // verus!
