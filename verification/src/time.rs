//! Points in time, lengths of time, and how long ago something was.
use vstd::prelude::*;

verus! {

/// The nanoseconds of a second.
pub const NANOS_PER_SEC: u32 = 1_000_000_000;

/// The seconds of the first day that a calendar date exists for, counted from the Unix epoch.
pub const MIN_SECS: i64 = -8_334_601_228_800;

/// The last second that a calendar date exists for, counted from the Unix epoch.
pub const MAX_SECS: i64 = 8_210_266_876_799;

/// The longest time that can have passed, in nanoseconds: as many milliseconds as an `i64` holds.
pub open spec fn max_elapsed_nanos() -> int {
    i64::MAX * 1_000_000
}

/// A point in time, in UTC: whole seconds since the Unix epoch, leap seconds not counted, and the
/// nanoseconds since. During a leap second the nanoseconds go on past a whole second.
#[derive(Clone, Copy, Debug, PartialEq, Eq, Hash, Structural)]
pub struct Timestamp {
    secs: i64,
    nanos: u32,
}

/// The seconds and nanoseconds of a `Timestamp`.
pub struct TimestampView {
    pub secs: int,
    pub nanos: int,
}

impl TimestampView {
    /// Whether a calendar date and a time of day exist for these seconds and nanoseconds.
    pub open spec fn valid(self) -> bool {
        &&& MIN_SECS <= self.secs <= MAX_SECS
        &&& 0 <= self.nanos < 2 * NANOS_PER_SEC
        &&& self.nanos >= NANOS_PER_SEC ==> self.secs % 60 == 59
    }

    /// The seconds since midnight.
    pub open spec fn second_of_day(self) -> int {
        self.secs % 86_400
    }
}

impl View for Timestamp {
    type V = TimestampView;

    closed spec fn view(&self) -> TimestampView {
        TimestampView { secs: self.secs as int, nanos: self.nanos as int }
    }
}

impl Timestamp {
    #[verifier::type_invariant]
    spec fn inv(self) -> bool {
        self@.valid()
    }

    /// The point in time `nanos` nanoseconds after second `secs`, where there is one.
    pub fn new(secs: i64, nanos: u32) -> (r: Option<Timestamp>)
        ensures
            r is Some <==> (TimestampView { secs: secs as int, nanos: nanos as int }).valid(),
            r is Some ==> r->0@ == (TimestampView { secs: secs as int, nanos: nanos as int }),
    {
        if secs < MIN_SECS || secs > MAX_SECS || nanos >= 2 * NANOS_PER_SEC {
            return None;
        }
        if nanos >= NANOS_PER_SEC {
            // The remainder is taken of a positive number: a multiple of 60 is added first.
            let shifted: i64 = secs + 8_334_601_228_800;
            if shifted % 60 != 59 {
                return None;
            }
        }
        Some(Timestamp { secs, nanos })
    }

    /// The whole seconds since the Unix epoch.
    pub fn secs(&self) -> (secs: i64)
        ensures
            secs == self@.secs,
    {
        self.secs
    }

    /// The nanoseconds since the whole second.
    pub fn nanos(&self) -> (nanos: u32)
        ensures
            nanos == self@.nanos,
    {
        self.nanos
    }
}

/// A length of time.
#[derive(Clone, Copy, Debug, PartialEq, Eq, Hash, Structural)]
pub struct Duration {
    secs: u64,
    nanos: u32,
}

impl View for Duration {
    type V = int;

    /// The length in nanoseconds.
    closed spec fn view(&self) -> int {
        self.secs * NANOS_PER_SEC + self.nanos
    }
}

/// The longest `Duration` in nanoseconds.
pub open spec fn max_duration_nanos() -> int {
    u64::MAX * NANOS_PER_SEC + NANOS_PER_SEC - 1
}

impl Duration {
    #[verifier::type_invariant]
    spec fn inv(self) -> bool {
        self.nanos < NANOS_PER_SEC
    }

    /// The length of `secs` seconds and `nanos` nanoseconds, where the nanoseconds make no whole
    /// second.
    pub fn new(secs: u64, nanos: u32) -> (r: Option<Duration>)
        ensures
            r is Some <==> nanos < NANOS_PER_SEC,
            r is Some ==> r->0@ == secs * NANOS_PER_SEC + nanos,
    {
        if nanos < NANOS_PER_SEC {
            Some(Duration { secs, nanos })
        } else {
            None
        }
    }

    /// The length of `secs` seconds.
    pub fn from_secs(secs: u64) -> (r: Duration)
        ensures
            r@ == secs * NANOS_PER_SEC,
    {
        Duration { secs, nanos: 0 }
    }

    /// The whole seconds of this length.
    pub fn as_secs(&self) -> (secs: u64)
        ensures
            secs == self@ / NANOS_PER_SEC as int,
    {
        proof {
            use_type_invariant(self);
            assert(self@ / NANOS_PER_SEC as int == self.secs) by (nonlinear_arith)
                requires
                    self@ == self.secs * NANOS_PER_SEC + self.nanos,
                    0 <= self.nanos < NANOS_PER_SEC,
                    NANOS_PER_SEC == 1_000_000_000,
            ;
        }
        self.secs
    }

    /// The nanoseconds of this length past its whole seconds.
    pub fn subsec_nanos(&self) -> (nanos: u32)
        ensures
            nanos == self@ % NANOS_PER_SEC as int,
    {
        proof {
            use_type_invariant(self);
        }
        self.nanos
    }

    /// Twice this length.
    pub fn doubled(&self) -> (r: Duration)
        requires
            2 * self@ <= max_duration_nanos(),
        ensures
            r@ == 2 * self@,
    {
        proof {
            use_type_invariant(self);
        }
        let nanos: u32 = self.nanos * 2;
        if nanos >= NANOS_PER_SEC {
            Duration { secs: self.secs * 2 + 1, nanos: nanos - NANOS_PER_SEC }
        } else {
            Duration { secs: self.secs * 2, nanos }
        }
    }

    /// The longer of this length and `other`.
    pub fn max(self, other: Duration) -> (r: Duration)
        ensures
            r@ == if self@ >= other@ { self@ } else { other@ },
    {
        proof {
            use_type_invariant(&self);
            use_type_invariant(&other);
        }
        if self.secs > other.secs || (self.secs == other.secs && self.nanos >= other.nanos) {
            self
        } else {
            other
        }
    }
}

/// A length of time that has passed; negative where it has yet to pass.
#[derive(Clone, Copy, Debug, PartialEq, Eq, Hash, Structural)]
pub struct TimeDelta {
    pub secs: i64,
    pub nanos: i32,
}

impl View for TimeDelta {
    type V = int;

    /// The length in nanoseconds.
    open spec fn view(&self) -> int {
        self.secs * NANOS_PER_SEC + self.nanos
    }
}

impl TimeDelta {
    /// Whether this length is greater than `other`.
    pub fn exceeds(&self, other: &TimeDelta) -> (b: bool)
        ensures
            b == (self@ > other@),
    {
        let this: i128 = self.secs as i128 * 1_000_000_000 + self.nanos as i128;
        let that: i128 = other.secs as i128 * 1_000_000_000 + other.nanos as i128;
        this > that
    }
}

/// The nanoseconds from `earlier` to `now`. Where the one that comes first in the course of a day
/// lies in a leap second, that second counts too.
pub open spec fn nanos_between(now: TimestampView, earlier: TimestampView) -> int {
    let leap: int = if now.second_of_day() > earlier.second_of_day() && earlier.nanos
        >= NANOS_PER_SEC {
        1
    } else if now.second_of_day() < earlier.second_of_day() && now.nanos >= NANOS_PER_SEC {
        -1
    } else {
        0
    };
    (now.secs - earlier.secs + leap) * NANOS_PER_SEC + now.nanos - earlier.nanos
}

/// The time from `earlier` to `now` as `chrono::DateTime::signed_duration_since` gives it: the
/// difference of the two in nanoseconds, a leap second counted as `nanos_between` says.
#[verifier::external_body]
fn chrono_signed_duration_since(now: Timestamp, earlier: Timestamp) -> (elapsed: TimeDelta)
    requires
        now@.valid(),
        earlier@.valid(),
    ensures
        elapsed@ == nanos_between(now@, earlier@),
{
    let now = chrono::DateTime::from_timestamp(now.secs, now.nanos).unwrap();
    let earlier = chrono::DateTime::from_timestamp(earlier.secs, earlier.nanos).unwrap();
    let elapsed = now.signed_duration_since(earlier);
    TimeDelta { secs: elapsed.num_seconds(), nanos: elapsed.subsec_nanos() }
}

/// The length `duration` as `chrono::TimeDelta::from_std` gives it: the same number of
/// nanoseconds, where that is no more than an `i64` of milliseconds.
#[verifier::external_body]
fn chrono_from_std(duration: Duration) -> (delta: Option<TimeDelta>)
    requires
        duration.nanos < NANOS_PER_SEC,
    ensures
        delta is Some <==> duration@ <= max_elapsed_nanos(),
        delta is Some ==> delta->0@ == duration@,
{
    let duration = std::time::Duration::new(duration.secs, duration.nanos);
    let delta = chrono::TimeDelta::from_std(duration).ok();
    delta.map(|d| TimeDelta { secs: d.num_seconds(), nanos: d.subsec_nanos() })
}

/// The time from `earlier` to `now`.
pub fn signed_duration_since(now: Timestamp, earlier: Timestamp) -> (elapsed: TimeDelta)
    ensures
        elapsed@ == nanos_between(now@, earlier@),
{
    proof {
        use_type_invariant(&now);
        use_type_invariant(&earlier);
    }
    chrono_signed_duration_since(now, earlier)
}

/// `duration` as a length of time that can have passed, where it is not too long for one.
pub fn time_delta_from_std(duration: Duration) -> (delta: Option<TimeDelta>)
    ensures
        delta is Some <==> duration@ <= max_elapsed_nanos(),
        delta is Some ==> delta->0@ == duration@,
{
    proof {
        use_type_invariant(&duration);
    }
    chrono_from_std(duration)
}

} // verus!
