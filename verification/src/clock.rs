//! Timestamp correlation.
//!
//! The kernel stamps each event with nanoseconds since boot. The consumer
//! computes, once at startup, the fixed offset between the wall clock and the
//! monotonic clock; adding that offset to an event's monotonic timestamp
//! gives the event's absolute wall-clock time.

use vstd::prelude::*;

verus! {

pub const NANOS_PER_SEC: u64 = 1_000_000_000;

/// Whole seconds of the wall-clock instant reached by adding monotonic
/// nanoseconds `mono_ns` to the boot offset `offset_ns`.
pub open spec fn spec_wall_secs(offset_ns: int, mono_ns: int) -> int {
    (offset_ns + mono_ns) / (NANOS_PER_SEC as int)
}

/// Sub-second nanoseconds of that same wall-clock instant.
pub open spec fn spec_wall_subsec_nanos(offset_ns: int, mono_ns: int) -> int {
    (offset_ns + mono_ns) % (NANOS_PER_SEC as int)
}

/// The wall-clock instant reached by adding monotonic nanoseconds `mono_ns`
/// to the boot offset `offset_ns`.
pub open spec fn spec_wall_time(offset_ns: int, mono_ns: int) -> WallTime {
    WallTime {
        secs: spec_wall_secs(offset_ns, mono_ns) as i64,
        subsec_nanos: spec_wall_subsec_nanos(offset_ns, mono_ns) as u32,
    }
}

/// An absolute wall-clock instant: whole seconds since the Unix epoch and
/// the sub-second nanoseconds on top of them.
#[derive(Clone, Copy, PartialEq, Eq, Structural, Debug)]
pub struct WallTime {
    pub secs: i64,
    pub subsec_nanos: u32,
}

impl WallTime {
    /// The sub-second part never reaches a full second.
    pub open spec fn wf(self) -> bool {
        &&& 0 <= self.secs
        &&& self.subsec_nanos < NANOS_PER_SEC
    }

    /// The instant as total nanoseconds since the epoch.
    pub open spec fn as_ns(self) -> int {
        self.secs * (NANOS_PER_SEC as int) + self.subsec_nanos
    }

    /// The wall-clock instant of an event: boot offset plus the event's
    /// monotonic timestamp, split into seconds and sub-second nanoseconds.
    pub fn from_boot_offset(offset_ns: i64, mono_ns: u64) -> (t: WallTime)
        requires
            0 <= offset_ns + mono_ns <= i64::MAX,
        ensures
            t.wf(),
            t.secs == spec_wall_secs(offset_ns as int, mono_ns as int),
            t.subsec_nanos == spec_wall_subsec_nanos(offset_ns as int, mono_ns as int),
            t == spec_wall_time(offset_ns as int, mono_ns as int),
            t.as_ns() == offset_ns + mono_ns,
    {
        let wall: u64 = ((offset_ns as i128) + (mono_ns as i128)) as u64;
        let secs: i64 = (wall / NANOS_PER_SEC) as i64;
        let subsec_nanos: u32 = (wall % NANOS_PER_SEC) as u32;
        let t = WallTime { secs, subsec_nanos };
        proof {
            lemma_timestamp_round_trip(offset_ns as int, mono_ns as int);
        }
        t
    }

    /// Whole seconds since the epoch.
    pub fn timestamp(&self) -> (s: i64)
        ensures
            s == self.secs,
    {
        self.secs
    }

    /// Sub-second nanoseconds.
    pub fn timestamp_subsec_nanos(&self) -> (n: u32)
        ensures
            n == self.subsec_nanos,
    {
        self.subsec_nanos
    }
}

/// The fixed boot offset: current wall-clock nanoseconds minus current
/// monotonic nanoseconds, both read as closely together as possible at
/// startup. Adding the offset to a later monotonic reading reconstructs the
/// wall-clock time of that reading.
pub fn boot_offset_ns(wall_now_ns: i128, mono_now_ns: i128) -> (offset: i64)
    requires
        i64::MIN <= wall_now_ns - mono_now_ns <= i64::MAX,
    ensures
        offset == wall_now_ns - mono_now_ns,
{
    (wall_now_ns - mono_now_ns) as i64
}

/// Timestamp round trip: splitting boot offset `O` plus monotonic timestamp
/// `T` into whole seconds and sub-second nanoseconds loses nothing — the
/// two parts reassemble to exactly `O + T` nanoseconds.
pub proof fn lemma_timestamp_round_trip(offset_ns: int, mono_ns: int)
    requires
        0 <= offset_ns + mono_ns,
    ensures
        spec_wall_secs(offset_ns, mono_ns) * (NANOS_PER_SEC as int) + spec_wall_subsec_nanos(
            offset_ns,
            mono_ns,
        ) == offset_ns + mono_ns,
        0 <= spec_wall_secs(offset_ns, mono_ns),
        0 <= spec_wall_subsec_nanos(offset_ns, mono_ns) < NANOS_PER_SEC,
{
    let w = offset_ns + mono_ns;
    let d = NANOS_PER_SEC as int;
    vstd::arithmetic::div_mod::lemma_fundamental_div_mod(w, d);
    vstd::arithmetic::div_mod::lemma_div_pos_is_pos(w, d);
    vstd::arithmetic::div_mod::lemma_mod_bound(w, d);
}

} // verus!
