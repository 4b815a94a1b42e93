use vstd::prelude::*;

verus! {

/// Nanoseconds in one second.
pub const NANOS_PER_SEC: i128 = 1_000_000_000;

/// Largest number of nanoseconds an instant or a duration can hold.
pub const NANOS_MAX: i128 = i128::MAX;

/// Smallest number of nanoseconds an instant or a duration can hold.
pub const NANOS_MIN: i128 = i128::MIN;

/// A UTC instant with nanosecond resolution: the number of nanoseconds since
/// 1970-01-01T00:00:00Z, leap seconds not counted.
#[derive(Debug, Clone, Copy, PartialEq, Eq, Hash, PartialOrd, Ord, Structural)]
pub struct Dtu {
    pub nanos: i128,
}

/// A signed span of time with nanosecond resolution.
#[derive(Debug, Clone, Copy, PartialEq, Eq, Hash, PartialOrd, Ord, Structural)]
pub struct TimeDelta {
    pub nanos: i128,
}

impl View for Dtu {
    type V = int;

    open spec fn view(&self) -> int {
        self.nanos as int
    }
}

impl View for TimeDelta {
    type V = int;

    open spec fn view(&self) -> int {
        self.nanos as int
    }
}

/// Whether `n` nanoseconds can be held by an instant or a duration.
pub open spec fn representable(n: int) -> bool {
    NANOS_MIN <= n <= NANOS_MAX
}

impl Dtu {
    /// The instant `nanos` nanoseconds after the epoch.
    pub fn from_nanos(nanos: i128) -> (t: Dtu)
        ensures
            t@ == nanos,
    {
        Dtu { nanos }
    }

    /// The instant `secs` whole seconds and `nanos` nanoseconds after the epoch.
    pub fn from_timestamp(secs: i64, nanos: u32) -> (t: Dtu)
        ensures
            t@ == secs * NANOS_PER_SEC + nanos,
    {
        let whole: i128 = secs as i128 * NANOS_PER_SEC;
        Dtu { nanos: whole + nanos as i128 }
    }

    /// Splits the instant into whole seconds since the epoch, rounded towards
    /// the past, and the nanoseconds left over. `None` when the seconds do not
    /// fit the result.
    pub fn to_timestamp(&self) -> (parts: Option<(i64, u32)>)
        ensures
            parts is Some <==> i64::MIN <= self@ / (NANOS_PER_SEC as int) <= i64::MAX,
            parts matches Some((secs, nanos)) ==> {
                &&& nanos < NANOS_PER_SEC
                &&& secs * NANOS_PER_SEC + nanos == self@
            },
    {
        let (secs, rest) = split_seconds(self.nanos);
        if secs < i64::MIN as i128 || secs > i64::MAX as i128 {
            None
        } else {
            Some((secs as i64, rest))
        }
    }

    /// Nanoseconds since the epoch.
    pub fn as_nanos(&self) -> (n: i128)
        ensures
            n == self@,
    {
        self.nanos
    }

    /// The instant `delta` later, or `None` when it cannot be represented.
    pub fn checked_add(&self, delta: TimeDelta) -> (sum: Option<Dtu>)
        ensures
            sum is Some <==> representable(self@ + delta@),
            sum matches Some(t) ==> t@ == self@ + delta@,
    {
        match self.nanos.checked_add(delta.nanos) {
            Some(nanos) => Some(Dtu { nanos }),
            None => None,
        }
    }

    /// The instant `delta` earlier, or `None` when it cannot be represented.
    pub fn checked_sub(&self, delta: TimeDelta) -> (diff: Option<Dtu>)
        ensures
            diff is Some <==> representable(self@ - delta@),
            diff matches Some(t) ==> t@ == self@ - delta@,
    {
        match self.nanos.checked_sub(delta.nanos) {
            Some(nanos) => Some(Dtu { nanos }),
            None => None,
        }
    }

    /// The span from `earlier` to this instant, or `None` when it cannot be
    /// represented.
    pub fn checked_since(&self, earlier: Dtu) -> (span: Option<TimeDelta>)
        ensures
            span is Some <==> representable(self@ - earlier@),
            span matches Some(d) ==> d@ == self@ - earlier@,
    {
        match self.nanos.checked_sub(earlier.nanos) {
            Some(nanos) => Some(TimeDelta { nanos }),
            None => None,
        }
    }

    /// Whether this instant lies strictly before `other`.
    pub fn is_before(&self, other: Dtu) -> (b: bool)
        ensures
            b == (self@ < other@),
    {
        self.nanos < other.nanos
    }

    /// Whether this instant lies strictly after `other`.
    pub fn is_after(&self, other: Dtu) -> (b: bool)
        ensures
            b == (self@ > other@),
    {
        self.nanos > other.nanos
    }

    /// The earlier of two instants, the first when they are equal.
    pub fn earliest(self, other: Dtu) -> (t: Dtu)
        ensures
            t == (if self@ <= other@ { self } else { other }),
    {
        if self.nanos <= other.nanos {
            self
        } else {
            other
        }
    }
}

/// Splits a count of nanoseconds into whole seconds, rounded down, and the
/// nanoseconds left over.
fn split_seconds(n: i128) -> (parts: (i128, u32))
    ensures
        parts.0 == (n as int) / (NANOS_PER_SEC as int),
        parts.1 == (n as int) % (NANOS_PER_SEC as int),
        parts.0 * NANOS_PER_SEC + parts.1 == n,
        parts.1 < NANOS_PER_SEC,
{
    if n >= 0 {
        let q: i128 = n / NANOS_PER_SEC;
        let r: i128 = n % NANOS_PER_SEC;
        (q, r as u32)
    } else {
        // -(n + 1) is non-negative and cannot overflow
        let m: i128 = -(n + 1);
        let q: i128 = m / NANOS_PER_SEC;
        let r: i128 = m % NANOS_PER_SEC;
        // n = -(q * 1e9 + r) - 1 = (-q - 1) * 1e9 + (1e9 - 1 - r)
        let secs: i128 = -q - 1;
        let rest: i128 = NANOS_PER_SEC - 1 - r;
        assert(secs * NANOS_PER_SEC + rest == n);
        assert(secs == (n as int) / (NANOS_PER_SEC as int) && rest == (n as int) % (NANOS_PER_SEC as int)) by {
            vstd::arithmetic::div_mod::lemma_fundamental_div_mod_converse(
                n as int,
                NANOS_PER_SEC as int,
                secs as int,
                rest as int,
            );
        }
        (secs, rest as u32)
    }
}

impl TimeDelta {
    /// The empty span.
    pub fn zero() -> (d: TimeDelta)
        ensures
            d@ == 0,
    {
        TimeDelta { nanos: 0 }
    }

    /// A span of `secs` whole seconds and `nanos` nanoseconds, or `None` when
    /// `nanos` is a full second or more.
    pub fn new(secs: i64, nanos: u32) -> (d: Option<TimeDelta>)
        ensures
            d is Some <==> nanos < NANOS_PER_SEC,
            d matches Some(d) ==> d@ == secs * NANOS_PER_SEC + nanos,
    {
        if nanos as i128 >= NANOS_PER_SEC {
            None
        } else {
            let whole: i128 = secs as i128 * NANOS_PER_SEC;
            Some(TimeDelta { nanos: whole + nanos as i128 })
        }
    }

    /// A span of `n` nanoseconds.
    pub fn nanoseconds(n: i64) -> (d: TimeDelta)
        ensures
            d@ == n,
    {
        TimeDelta { nanos: n as i128 }
    }

    /// A span of `n` milliseconds.
    pub fn milliseconds(n: i64) -> (d: TimeDelta)
        ensures
            d@ == n * 1_000_000,
    {
        TimeDelta { nanos: n as i128 * 1_000_000 }
    }

    /// A span of `n` seconds.
    pub fn seconds(n: i64) -> (d: TimeDelta)
        ensures
            d@ == n * NANOS_PER_SEC,
    {
        TimeDelta { nanos: n as i128 * NANOS_PER_SEC }
    }

    /// A span of `n` minutes.
    pub fn minutes(n: i64) -> (d: TimeDelta)
        ensures
            d@ == n * 60 * NANOS_PER_SEC,
    {
        TimeDelta { nanos: n as i128 * 60 * NANOS_PER_SEC }
    }

    /// A span of `n` hours.
    pub fn hours(n: i64) -> (d: TimeDelta)
        ensures
            d@ == n * 3_600 * NANOS_PER_SEC,
    {
        TimeDelta { nanos: n as i128 * 3_600 * NANOS_PER_SEC }
    }

    /// A span of `n` days of 24 hours.
    pub fn days(n: i64) -> (d: TimeDelta)
        ensures
            d@ == n * 86_400 * NANOS_PER_SEC,
    {
        TimeDelta { nanos: n as i128 * 86_400 * NANOS_PER_SEC }
    }

    /// The span in nanoseconds.
    pub fn as_nanos(&self) -> (n: i128)
        ensures
            n == self@,
    {
        self.nanos
    }

    /// The sum of two spans, or `None` when it cannot be represented.
    pub fn checked_add(&self, other: TimeDelta) -> (sum: Option<TimeDelta>)
        ensures
            sum is Some <==> representable(self@ + other@),
            sum matches Some(d) ==> d@ == self@ + other@,
    {
        match self.nanos.checked_add(other.nanos) {
            Some(nanos) => Some(TimeDelta { nanos }),
            None => None,
        }
    }

    /// The span taken `k` times, or `None` when it cannot be represented.
    pub fn checked_mul(&self, k: i64) -> (product: Option<TimeDelta>)
        ensures
            product is Some <==> representable(self@ * k),
            product matches Some(d) ==> d@ == self@ * k,
    {
        match self.nanos.checked_mul(k as i128) {
            Some(nanos) => Some(TimeDelta { nanos }),
            None => None,
        }
    }

    /// Whether the span is strictly positive.
    pub fn is_positive(&self) -> (b: bool)
        ensures
            b == (self@ > 0),
    {
        self.nanos > 0
    }
}

/// Reads the system clock through `chrono::Utc::now` and hands back the whole
/// seconds since the epoch and the nanoseconds of the running second, as
/// `DateTime::timestamp` and `DateTime::timestamp_subsec_nanos` give them.
/// Nothing is claimed of the reading.
#[verifier::external_body]
fn utc_now_parts() -> (parts: (i64, u32)) {
    let t = chrono::Utc::now();
    (t.timestamp(), t.timestamp_subsec_nanos())
}

/// The current instant, read from the system clock. The clock gives whole
/// seconds since the epoch and the nanoseconds of the running second, so the
/// instant lies within what these can hold, far inside the range of instants.
pub fn now() -> (t: Dtu)
    ensures
        i64::MIN * NANOS_PER_SEC <= t@ <= i64::MAX * NANOS_PER_SEC + u32::MAX,
{
    let (secs, nanos) = utc_now_parts();
    Dtu::from_timestamp(secs, nanos)
}

} // verus!
