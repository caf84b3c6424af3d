//! Time spans.

use vstd::prelude::*;

verus! {

/// A span of time.
#[derive(Clone, Copy, Debug, PartialEq, Eq, Structural)]
pub struct Duration {
    pub secs: u64,

    /// Nanoseconds on top of the seconds, less than a whole second.
    pub nanos: u32,
}

impl Duration {
    pub fn from_secs(secs: u64) -> (duration: Self)
        ensures
            duration == (Duration { secs, nanos: 0 }),
    {
        Duration { secs, nanos: 0 }
    }
}

/// A span of whole seconds has no nanoseconds on top.
pub proof fn law_whole_seconds(secs: u64, duration: Duration)
    requires
        call_ensures(Duration::from_secs, (secs,), duration),
    ensures
        duration.secs == secs,
        duration.nanos == 0,
{
}

} // verus!
