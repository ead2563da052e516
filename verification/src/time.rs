use vstd::prelude::*;

verus! {

/// A point in time: seconds since the start of 1970 in universal time, and the
/// nanoseconds that have passed since that second began.
#[derive(Clone, Copy, PartialEq, Eq, Debug, Structural)]
pub struct Timestamp {
    pub secs: i64,
    pub nanos: u32,
}

impl Timestamp {
    /// Whether this point in time comes before another.
    pub open spec fn before(self, other: Timestamp) -> bool {
        self.secs < other.secs || (self.secs == other.secs && self.nanos < other.nanos)
    }

    /// Whether this point in time comes before another.
    pub fn lt(self, other: Timestamp) -> (result: bool)
        ensures
            result == self.before(other),
    {
        self.secs < other.secs || (self.secs == other.secs && self.nanos < other.nanos)
    }

    /// How many nanoseconds have passed since the start of 1970.
    pub open spec fn instant(self) -> int {
        self.secs * 1_000_000_000 + self.nanos
    }

    /// How many nanoseconds have passed since the start of 1970.
    pub fn to_instant(self) -> (instant: i128)
        ensures
            instant == self.instant(),
    {
        self.secs as i128 * 1_000_000_000 + self.nanos as i128
    }

    /// The later of two points in time.
    pub fn max(self, other: Timestamp) -> (later: Timestamp)
        ensures
            later == if other.before(self) {
                self
            } else {
                other
            },
    {
        if other.lt(self) {
            self
        } else {
            other
        }
    }
}

/// How many nanoseconds lie between two points in time.
pub open spec fn distance(a: Timestamp, b: Timestamp) -> int {
    if a.instant() < b.instant() {
        b.instant() - a.instant()
    } else {
        a.instant() - b.instant()
    }
}

/// How many nanoseconds lie between two points in time.
pub fn time_between(a: Timestamp, b: Timestamp) -> (nanos: i128)
    ensures
        nanos == distance(a, b),
{
    let from: i128 = a.to_instant();
    let to: i128 = b.to_instant();
    if from < to {
        to - from
    } else {
        from - to
    }
}

/// Points in time are ordered by how many nanoseconds have passed, and each is a single one.
pub proof fn later_is_more_nanoseconds(a: Timestamp, b: Timestamp)
    requires
        a.nanos < 1_000_000_000,
        b.nanos < 1_000_000_000,
    ensures
        a.before(b) <==> a.instant() < b.instant(),
        a == b <==> a.instant() == b.instant(),
        a.secs + 1 == b.secs && a.nanos == b.nanos ==> b.instant() == a.instant() + 1_000_000_000,
        a.secs == b.secs ==> b.instant() - a.instant() == b.nanos - a.nanos,
{
}

/// Two points in time are as far apart in one direction as in the other. No way by a third one
/// is shorter.
pub proof fn distances_in_time(a: Timestamp, b: Timestamp, c: Timestamp)
    ensures
        distance(a, b) == distance(b, a),
        distance(a, b) >= 0,
        distance(a, a) == 0,
        distance(a, c) <= distance(a, b) + distance(b, c),
        distance(a, b) == a.instant() - b.instant() || distance(a, b) == b.instant() - a.instant(),
{
}

} // verus!
