//! Durations and instants.
//!
//! A [`Duration`] is a signed number of nanoseconds that the contracts can
//! speak of. Instants stay those of the `time` crate.
use vstd::prelude::*;

verus! {

/// Nanoseconds in a second.
pub const NANOS_PER_SEC: i32 = 1_000_000_000;

/// A signed span of time: whole seconds and the nanoseconds past them, of the
/// same sign.
#[derive(Clone, Copy, PartialEq, Eq, Structural, Debug)]
pub struct Duration {
    seconds: i64,
    nanoseconds: i32,
}

impl View for Duration {
    type V = int;

    /// The span in nanoseconds.
    closed spec fn view(&self) -> int {
        self.seconds as int * 1_000_000_000 + self.nanoseconds as int
    }
}

/// `n / d` rounded towards zero, for a positive `d`.
pub open spec fn div_towards_zero(n: int, d: int) -> int {
    if n >= 0 {
        n / d
    } else {
        -((-n) / d)
    }
}

/// `n / d` rounded up, for a positive `d`.
pub open spec fn div_up(n: int, d: int) -> int {
    -((-n) / d)
}

/// Milliseconds of a span of `nanos` nanoseconds, rounded up; `u64::MAX` where
/// that is not a `u64`.
pub open spec fn millis_of(nanos: int) -> u64 {
    let ms = div_up(nanos, 1_000_000);
    if 0 <= ms <= u64::MAX {
        ms as u64
    } else {
        u64::MAX
    }
}

/// Calls `time::Duration::new` and `whole_milliseconds`: the milliseconds of
/// the span, rounded towards zero. The first panics when the carry of the
/// nanoseconds overflows the seconds, which needs a whole second of them.
#[verifier::external_body]
fn whole_milliseconds(seconds: i64, nanoseconds: i32) -> (ms: i128)
    requires
        -1_000_000_000 < nanoseconds < 1_000_000_000,
    ensures
        ms == div_towards_zero(seconds as int * 1_000_000_000 + nanoseconds as int, 1_000_000),
{
    time::Duration::new(seconds, nanoseconds).whole_milliseconds()
}

impl Duration {
    /// What every `Duration` meets: less than a second of nanoseconds, and of
    /// the sign of the seconds.
    #[verifier::type_invariant]
    spec fn inv(self) -> bool {
        &&& -1_000_000_000 < self.nanoseconds < 1_000_000_000
        &&& self.seconds > 0 ==> self.nanoseconds >= 0
        &&& self.seconds < 0 ==> self.nanoseconds <= 0
    }

    /// A span of `ms` milliseconds.
    pub fn milliseconds(ms: i64) -> (d: Duration)
        ensures
            d@ == ms * 1_000_000,
    {
        if ms >= 0 {
            let seconds = ms / 1000;
            let rest = ms % 1000;
            Duration { seconds, nanoseconds: (rest * 1_000_000) as i32 }
        } else if ms == i64::MIN {
            Duration { seconds: -9_223_372_036_854_775, nanoseconds: -808_000_000 }
        } else {
            let seconds = (-ms) / 1000;
            let rest = (-ms) % 1000;
            Duration { seconds: -seconds, nanoseconds: -((rest * 1_000_000) as i32) }
        }
    }

    /// A span of `us` microseconds.
    pub fn microseconds(us: i64) -> (d: Duration)
        ensures
            d@ == us * 1000,
    {
        Self::from_nanos(us as i128 * 1000)
    }

    /// A span of `s` seconds.
    pub fn seconds(s: i64) -> (d: Duration)
        ensures
            d@ == s * 1_000_000_000,
    {
        Duration { seconds: s, nanoseconds: 0 }
    }

    /// The milliseconds of the span, rounded up and saturating at `u64::MAX`; a
    /// span of minus a millisecond or less saturates too.
    pub fn millis(self) -> (ms: u64)
        ensures
            ms == millis_of(self@),
    {
        proof {
            use_type_invariant(&self);
        }
        let whole = whole_milliseconds(self.seconds, self.nanoseconds);
        let exact: i128 = self.seconds as i128 * 1_000_000_000 + self.nanoseconds as i128;
        // Whole milliseconds are rounded towards zero: a positive rest counts
        // as one more.
        let ms: i128 = if whole * 1_000_000 < exact {
            whole + 1
        } else {
            whole
        };
        if 0 <= ms && ms <= u64::MAX as i128 {
            ms as u64
        } else {
            u64::MAX
        }
    }

    /// The sum of two spans, saturating at the longest and at the shortest span
    /// that seconds and nanoseconds can hold.
    pub fn saturating_add(self, other: Duration) -> (d: Duration)
        ensures
            d@ == saturated_nanos(self@ + other@),
    {
        proof {
            use_type_invariant(&self);
            use_type_invariant(&other);
        }
        let total: i128 = (self.seconds as i128 + other.seconds as i128) * 1_000_000_000 + (
        self.nanoseconds as i128 + other.nanoseconds as i128);
        Self::from_nanos(total)
    }

    /// A span of `nanos` nanoseconds, saturating at both ends.
    fn from_nanos(nanos: i128) -> (d: Duration)
        ensures
            d@ == saturated_nanos(nanos as int),
    {
        if nanos > MAX_NANOS {
            Duration { seconds: i64::MAX, nanoseconds: 999_999_999 }
        } else if nanos < MIN_NANOS {
            Duration { seconds: i64::MIN, nanoseconds: -999_999_999 }
        } else if nanos >= 0 {
            Duration {
                seconds: (nanos / 1_000_000_000) as i64,
                nanoseconds: (nanos % 1_000_000_000) as i32,
            }
        } else {
            let seconds: i128 = (-nanos) / 1_000_000_000;
            let rest: i128 = (-nanos) % 1_000_000_000;
            Duration { seconds: (-seconds) as i64, nanoseconds: (-rest) as i32 }
        }
    }
}

/// `time::Instant`, a reading of the monotonic clock.
#[verifier::external_type_specification]
#[verifier::external_body]
pub struct ExInstant(time::Instant);

/// The position of an instant on the monotonic clock, in nanoseconds.
pub uninterp spec fn instant_nanos(instant: time::Instant) -> int;

/// Whether the clock has an instant at a position.
pub open spec fn representable(nanos: int) -> bool {
    exists|i: time::Instant| #[trigger] instant_nanos(i) == nanos
}

/// Calls `time::Instant::now`, which reads the clock. Nothing is said of the
/// reading.
#[verifier::external_body]
pub(crate) fn now() -> (instant: time::Instant) {
    time::Instant::now()
}

/// Calls `<` of `time::Instant`: whether `a` lies before `b`.
#[verifier::external_body]
fn is_earlier(a: &time::Instant, b: &time::Instant) -> (earlier: bool)
    ensures
        earlier == (instant_nanos(*b) > instant_nanos(*a)),
{
    a < b
}

/// Calls `std::time::Instant::checked_duration_since` on the instants that
/// `time::Instant::into_inner` gives: the time from `start` to `end`, as seconds
/// and less than a second of nanoseconds. It is `None` only where `end` is the
/// earlier one.
#[verifier::external_body]
fn span_from(start: &time::Instant, end: &time::Instant) -> (span: Option<(u64, u32)>)
    requires
        instant_nanos(*start) <= instant_nanos(*end),
    ensures
        span is Some,
        span matches Some(s) ==> 1_000_000_000 > s.1 && s.0 as int * 1_000_000_000 + s.1 as int
            == instant_nanos(*end) - instant_nanos(*start),
{
    end.into_inner().checked_duration_since(start.into_inner()).map(
        |span| (span.as_secs(), span.subsec_nanos()),
    )
}

/// Calls `time::Instant::checked_add`: the instant that lies the given span
/// after `start` if the clock can represent it, and `None` otherwise. The span
/// is built by `time::Duration::new`, which panics only when the nanoseconds
/// carry.
#[verifier::external_body]
fn instant_checked_add(start: &time::Instant, seconds: i64, nanoseconds: i32) -> (later: Option<
    time::Instant,
>)
    requires
        -1_000_000_000 < nanoseconds < 1_000_000_000,
    ensures
        later is Some <==> representable(
            instant_nanos(*start) + seconds as int * 1_000_000_000 + nanoseconds as int,
        ),
        later matches Some(i) ==> instant_nanos(i) == instant_nanos(*start) + seconds as int
            * 1_000_000_000 + nanoseconds as int,
{
    start.checked_add(time::Duration::new(seconds, nanoseconds))
}

/// The time from `start` to `end`, which is negative if `end` is the earlier
/// one, saturating at the longest and at the shortest span.
pub fn time_between(start: &time::Instant, end: &time::Instant) -> (d: Duration)
    ensures
        d@ == saturated_nanos(instant_nanos(*end) - instant_nanos(*start)),
{
    if is_earlier(end, start) {
        let (seconds, nanoseconds) = span_from(end, start).unwrap();
        Duration::from_nanos(-(seconds as i128 * 1_000_000_000 + nanoseconds as i128))
    } else {
        let (seconds, nanoseconds) = span_from(start, end).unwrap();
        Duration::from_nanos(seconds as i128 * 1_000_000_000 + nanoseconds as i128)
    }
}

/// Whether `nanos` is the time from `start` to an instant that the clock may
/// read.
pub open spec fn is_elapsed(start: time::Instant, nanos: int) -> bool {
    exists|reading: time::Instant|
        nanos == saturated_nanos(#[trigger] instant_nanos(reading) - instant_nanos(start))
}

/// Reads the clock: the time from `start` to the reading. Nothing is said of
/// when that is.
pub fn elapsed(start: &time::Instant) -> (d: Duration)
    ensures
        is_elapsed(*start, d@),
{
    let reading = now();
    time_between(start, &reading)
}

/// The instant that lies `span` after `start`, unless the clock cannot
/// represent it.
pub fn instant_after(start: &time::Instant, span: Duration) -> (later: Option<time::Instant>)
    ensures
        later is Some <==> representable(instant_nanos(*start) + span@),
        later matches Some(i) ==> instant_nanos(i) == instant_nanos(*start) + span@,
{
    proof {
        use_type_invariant(&span);
    }
    instant_checked_add(start, span.seconds, span.nanoseconds)
}

/// The longest span, in nanoseconds.
pub const MAX_NANOS: i128 = 9_223_372_036_854_775_807_999_999_999;

/// The shortest span, in nanoseconds.
pub const MIN_NANOS: i128 = -9_223_372_036_854_775_808_999_999_999;

/// `nanos`, held between the shortest and the longest span.
pub open spec fn saturated_nanos(nanos: int) -> int {
    if nanos > MAX_NANOS {
        MAX_NANOS as int
    } else if nanos < MIN_NANOS {
        MIN_NANOS as int
    } else {
        nanos
    }
}

/// Milliseconds are rounded up, so that no span is taken for shorter than it is;
/// one that is too long, or lies a millisecond or more in the past, is taken for
/// the longest.
pub proof fn law_milliseconds_are_rounded_up(nanos: int)
    ensures
        -1_000_000 < nanos <= u64::MAX * 1_000_000 ==> {
            &&& nanos <= millis_of(nanos) * 1_000_000
            &&& millis_of(nanos) * 1_000_000 - nanos < 1_000_000
        },
        nanos <= -1_000_000 ==> millis_of(nanos) == u64::MAX,
        nanos > u64::MAX * 1_000_000 ==> millis_of(nanos) == u64::MAX,
{
}

/// A span that can be held is held as it is, and any other as the nearest one
/// that can.
pub proof fn law_spans_saturate(nanos: int)
    ensures
        ({
            let longest = 9_223_372_036_854_775_807_999_999_999int;
            let shortest = -9_223_372_036_854_775_808_999_999_999int;
            &&& shortest <= nanos <= longest ==> saturated_nanos(nanos) == nanos
            &&& nanos > longest ==> saturated_nanos(nanos) == longest
            &&& nanos < shortest ==> saturated_nanos(nanos) == shortest
        }),
{
}

/// A division towards zero keeps the sign, takes no more than fits, and leaves
/// less than one more would take.
pub proof fn law_division_goes_towards_zero(n: int, d: int)
    requires
        d > 0,
    ensures
        n >= 0 ==> div_towards_zero(n, d) * d <= n < (div_towards_zero(n, d) + 1) * d,
        n < 0 ==> (div_towards_zero(n, d) - 1) * d < n <= div_towards_zero(n, d) * d,
        div_towards_zero(-n, d) == -div_towards_zero(n, d),
{
    let m = if n >= 0 {
        n
    } else {
        -n
    };
    let q = m / d;
    assert(q * d <= m < (q + 1) * d) by (nonlinear_arith)
        requires
            d > 0,
            q == m / d,
    ;
    assert((-q) * d == -(q * d) && (-q - 1) * d == -((q + 1) * d)) by (nonlinear_arith);
    if n == 0 {
        assert(0int / d == 0) by (nonlinear_arith)
            requires
                d > 0,
        ;
    }
}

/// A division upwards gives the least multiple that is no less.
pub proof fn law_division_goes_up(n: int, d: int)
    requires
        d > 0,
    ensures
        (div_up(n, d) - 1) * d < n <= div_up(n, d) * d,
{
    let q = (-n) / d;
    assert(q * d <= -n < (q + 1) * d) by (nonlinear_arith)
        requires
            d > 0,
            q == (-n) / d,
    ;
    assert((-q) * d == -(q * d) && (-q - 1) * d == -((q + 1) * d)) by (nonlinear_arith);
}

/// The time that went by since `start` is that to some reading of the clock, as
/// far as it can be held.
pub proof fn law_what_went_by_is_up_to_a_reading(start: time::Instant, nanos: int)
    requires
        is_elapsed(start, nanos),
    ensures
        exists|reading: time::Instant|
            ({
                let difference = #[trigger] instant_nanos(reading) - instant_nanos(start);
                &&& nanos == difference || nanos == MAX_NANOS || nanos == MIN_NANOS
                &&& difference >= 0 ==> 0 <= nanos <= difference
            }),
{
    let reading = choose|reading: time::Instant|
        nanos == saturated_nanos(#[trigger] instant_nanos(reading) - instant_nanos(start));
    assert(instant_nanos(reading) - instant_nanos(start) >= 0 ==> 0 <= nanos);
}

} // verus!
