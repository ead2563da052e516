//! Spans of time.

use crate::time::Timestamp;
use vstd::prelude::*;

verus! {

/// How many nanoseconds a second has.
pub const NANOS_PER_SEC: u32 = 1_000_000_000;

/// A span of time: whole seconds, perhaps a negative number of them, and nanoseconds on
/// top of those.
#[derive(Clone, Copy, Debug, PartialEq, Eq, Structural)]
pub struct Span {
    pub secs: i64,
    pub nanos: u32,
}

/// How many nanoseconds seconds and nanoseconds make up.
pub open spec fn total_nanos(secs: i64, nanos: u32) -> int {
    secs * NANOS_PER_SEC + nanos
}

/// Whether seconds and nanoseconds are a span of time: less than a second is in
/// nanoseconds, and all together there are at most `i64::MAX` milliseconds, forwards or
/// backwards.
pub open spec fn is_span(secs: i64, nanos: u32) -> bool {
    &&& nanos < NANOS_PER_SEC
    &&& -(i64::MAX * 1_000_000) <= total_nanos(secs, nanos) <= i64::MAX * 1_000_000
}

/// [`chrono::TimeDelta::new`]: makes a span of time of seconds and nanoseconds. It returns
/// `None` where the nanoseconds make up a second or more, or where the span is longer than
/// `i64::MAX` milliseconds, and just then.
#[verifier::external_body]
fn time_delta_exists(secs: i64, nanos: u32) -> (made: bool)
    ensures
        made == is_span(secs, nanos),
{
    chrono::TimeDelta::new(secs, nanos).is_some()
}

/// How many whole seconds there are in seconds with nanoseconds on top of them: where the
/// seconds are negative, the nanoseconds take away from the last one.
pub open spec fn whole_seconds(secs: i64, nanos: u32) -> int {
    if secs < 0 && nanos > 0 {
        secs + 1
    } else {
        secs as int
    }
}

/// [`chrono::TimeDelta::num_seconds`]: the number of whole seconds in a span of time. It
/// is rounded towards zero.
#[verifier::external_body]
fn time_delta_num_seconds(secs: i64, nanos: u32) -> (whole: i64)
    requires
        is_span(secs, nanos),
    ensures
        whole == whole_seconds(secs, nanos),
{
    chrono::TimeDelta::new(secs, nanos).unwrap().num_seconds()
}

impl Span {
    pub open spec fn wf(self) -> bool {
        is_span(self.secs, self.nanos)
    }

    /// The length of the span, in nanoseconds.
    pub open spec fn length(self) -> int {
        total_nanos(self.secs, self.nanos)
    }

    /// The span of that many seconds and nanoseconds, or none at all where there is no
    /// such span.
    pub fn from_parts(secs: i64, nanos: u32) -> (span: Span)
        ensures
            span.wf(),
            span == if is_span(secs, nanos) {
                Span { secs, nanos }
            } else {
                Span { secs: 0, nanos: 0 }
            },
    {
        if time_delta_exists(secs, nanos) {
            Span { secs, nanos }
        } else {
            Span { secs: 0, nanos: 0 }
        }
    }

    /// The span from one point in time to another.
    pub fn between(from: Timestamp, to: Timestamp) -> (span: Option<Span>)
        requires
            from.nanos < NANOS_PER_SEC,
            to.nanos < NANOS_PER_SEC,
        ensures
            ({
                let length = total_nanos(to.secs, to.nanos) - total_nanos(from.secs, from.nanos);
                &&& span is Some <==> -(i64::MAX * 1_000_000) <= length <= i64::MAX * 1_000_000
                &&& span is Some ==> span->0.wf() && span->0.length() == length
            }),
    {
        let borrow: bool = to.nanos < from.nanos;
        let nanos: u32 = if borrow {
            (to.nanos + NANOS_PER_SEC) - from.nanos
        } else {
            to.nanos - from.nanos
        };
        let secs: i128 = to.secs as i128 - from.secs as i128 - if borrow {
            1
        } else {
            0
        };
        if secs < i64::MIN as i128 || secs > i64::MAX as i128 {
            return None;
        }
        if time_delta_exists(secs as i64, nanos) {
            Some(Span { secs: secs as i64, nanos })
        } else {
            None
        }
    }

    /// How many whole seconds the span has.
    pub fn num_seconds(self) -> (whole: i64)
        requires
            self.wf(),
        ensures
            whole == if self.length() < 0 {
                -((-self.length()) / NANOS_PER_SEC as int)
            } else {
                self.length() / NANOS_PER_SEC as int
            },
    {
        time_delta_num_seconds(self.secs, self.nanos)
    }
}

/// Whole seconds are counted towards zero: they are as many as fit into the length, and have its
/// sign.
pub proof fn seconds_are_counted_towards_zero(secs: i64, nanos: u32)
    requires
        nanos < 1_000_000_000,
    ensures
        ({
            let length = total_nanos(secs, nanos);
            let whole = whole_seconds(secs, nanos);
            &&& length >= 0 ==> whole * 1_000_000_000 <= length < (whole + 1) * 1_000_000_000
            &&& length <= 0 ==> (whole - 1) * 1_000_000_000 < length <= whole * 1_000_000_000
        }),
{
}

/// A span holds at most as many milliseconds as fit into a signed word, in either direction, and
/// its nanoseconds are less than a second.
pub proof fn spans_are_bounded(secs: i64, nanos: u32)
    ensures
        is_span(secs, nanos) ==> nanos < 1_000_000_000,
        is_span(secs, nanos) ==> -(9_223_372_036_854_775_807 * 1_000_000) <= secs * 1_000_000_000
            + nanos <= 9_223_372_036_854_775_807 * 1_000_000,
        nanos < 1_000_000_000 && -9_223_372_036_854_775 <= secs < 9_223_372_036_854_775 ==> is_span(
            secs,
            nanos,
        ),
        nanos < 1_000_000_000 && -(9_223_372_036_854_775_807 * 1_000_000) <= secs * 1_000_000_000
            + nanos <= 9_223_372_036_854_775_807 * 1_000_000 ==> is_span(secs, nanos),
        is_span(secs, nanos) ==> total_nanos(secs, nanos) - nanos == secs * 1_000_000_000,
{
}

} // verus!
