use vstd::prelude::*;

verus! {

/// The bit that holds the sign of a double precision number.
pub const SIGN_BIT: u64 = 0x8000_0000_0000_0000;

/// The bits of positive infinity. Larger magnitudes are not numbers.
pub const INFINITY_BITS: u64 = 0x7ff0_0000_0000_0000;

/// A double precision floating point number, carried by its bits.
///
/// Numbers are told apart and ordered as IEEE 754 has it: by sign and magnitude, the
/// two zeros equal, and what is not a number neither below, above nor equal to
/// anything. Nothing is computed with them here.
#[derive(Clone, Copy, Debug)]
pub struct Double {
    bits: u64,
}

impl View for Double {
    type V = u64;

    /// The bits of the number.
    closed spec fn view(&self) -> u64 {
        self.bits
    }
}

impl Double {
    /// The magnitude, as an integer that grows with it.
    pub open spec fn magnitude(self) -> int {
        if self@ >= SIGN_BIT {
            self@ - SIGN_BIT
        } else {
            self@ as int
        }
    }

    pub open spec fn is_nan(self) -> bool {
        self.magnitude() > INFINITY_BITS
    }

    /// An integer by which numbers are ordered.
    pub open spec fn rank(self) -> int {
        if self@ >= SIGN_BIT {
            -self.magnitude()
        } else {
            self.magnitude()
        }
    }

    /// Whether the two are numbers, and this one is below the other.
    pub open spec fn below(self, other: Double) -> bool {
        !self.is_nan() && !other.is_nan() && self.rank() < other.rank()
    }

    /// Whether the two are the same number.
    pub open spec fn same(self, other: Double) -> bool {
        !self.is_nan() && !other.is_nan() && self.rank() == other.rank()
    }

    pub fn from_bits(bits: u64) -> (number: Self)
        ensures
            number@ == bits,
    {
        Double { bits }
    }

    pub fn to_bits(self) -> (bits: u64)
        ensures
            bits == self@,
    {
        self.bits
    }

    /// Whether this is not a number.
    pub fn nan(self) -> (result: bool)
        ensures
            result == self.is_nan(),
    {
        let magnitude: u64 = if self.bits >= SIGN_BIT {
            self.bits - SIGN_BIT
        } else {
            self.bits
        };
        magnitude > INFINITY_BITS
    }

    /// Whether the two are numbers, and this one is below the other.
    pub fn lt(self, other: Double) -> (result: bool)
        ensures
            result == self.below(other),
    {
        if self.nan() || other.nan() {
            false
        } else if self.bits >= SIGN_BIT {
            if other.bits >= SIGN_BIT {
                self.bits > other.bits
            } else {
                self.bits > SIGN_BIT || other.bits > 0
            }
        } else {
            other.bits < SIGN_BIT && self.bits < other.bits
        }
    }

    /// Whether the two are the same number.
    pub fn eq(self, other: Double) -> (result: bool)
        ensures
            result == self.same(other),
    {
        if self.nan() || other.nan() {
            false
        } else {
            self.bits == other.bits || (self.bits == 0 && other.bits == SIGN_BIT) || (self.bits
                == SIGN_BIT && other.bits == 0)
        }
    }

    /// Whether the two are numbers, and this one is not above the other.
    pub fn le(self, other: Double) -> (result: bool)
        ensures
            result == (self.below(other) || self.same(other)),
    {
        self.lt(other) || self.eq(other)
    }
}

/// The first of the smallest numbers in a sequence. What is not a number is passed
/// over, unless it comes first.
pub open spec fn first_smallest(numbers: Seq<Double>) -> Double
    recommends
        numbers.len() > 0,
    decreases numbers.len(),
{
    if numbers.len() <= 1 {
        numbers[0]
    } else {
        let before = first_smallest(numbers.drop_last());
        if numbers.last().below(before) {
            numbers.last()
        } else {
            before
        }
    }
}

/// The last of the largest numbers in a sequence. What is not a number takes the
/// place of the numbers before it, and gives way to the next one.
pub open spec fn last_largest(numbers: Seq<Double>) -> Double
    recommends
        numbers.len() > 0,
    decreases numbers.len(),
{
    if numbers.len() <= 1 {
        numbers[0]
    } else {
        let before = last_largest(numbers.drop_last());
        if numbers.last().below(before) {
            before
        } else {
            numbers.last()
        }
    }
}

/// The smallest of some numbers, the first one where several are the same.
pub fn smallest(numbers: &Vec<Double>) -> (result: Option<Double>)
    ensures
        result == if numbers@.len() > 0 {
            Some(first_smallest(numbers@))
        } else {
            None
        },
{
    if numbers.len() == 0 {
        return None;
    }
    let mut best: Double = numbers[0];
    for i in 1..numbers.len()
        invariant
            numbers@.len() > 0,
            best == first_smallest(numbers@.take(i as int)),
    {
        proof {
            assert(numbers@.take(i + 1).drop_last() =~= numbers@.take(i as int));
        }
        if numbers[i].lt(best) {
            best = numbers[i];
        }
    }
    assert(numbers@.take(numbers@.len() as int) =~= numbers@);
    Some(best)
}

/// The largest of some numbers, the last one where several are the same.
pub fn largest(numbers: &Vec<Double>) -> (result: Option<Double>)
    ensures
        result == if numbers@.len() > 0 {
            Some(last_largest(numbers@))
        } else {
            None
        },
{
    if numbers.len() == 0 {
        return None;
    }
    let mut best: Double = numbers[0];
    for i in 1..numbers.len()
        invariant
            numbers@.len() > 0,
            best == last_largest(numbers@.take(i as int)),
    {
        proof {
            assert(numbers@.take(i + 1).drop_last() =~= numbers@.take(i as int));
        }
        if !numbers[i].lt(best) {
            best = numbers[i];
        }
    }
    assert(numbers@.take(numbers@.len() as int) =~= numbers@);
    Some(best)
}

/// Of numbers, the smallest is not above, and the largest is not below, any of them.
pub proof fn smallest_and_largest_bound_the_others(numbers: Seq<Double>, i: int)
    requires
        0 <= i < numbers.len(),
        forall|j: int| 0 <= j < numbers.len() ==> !(#[trigger] numbers[j]).is_nan(),
    ensures
        numbers.contains(first_smallest(numbers)),
        numbers.contains(last_largest(numbers)),
        !numbers[i].below(first_smallest(numbers)),
        !last_largest(numbers).below(numbers[i]),
    decreases numbers.len(),
{
    if numbers.len() > 1 {
        let before = numbers.drop_last();
        let j = if i < before.len() {
            i
        } else {
            0
        };
        assert(forall|k: int| 0 <= k < before.len() ==> before[k] == numbers[k]);
        smallest_and_largest_bound_the_others(before, j);
        let a = choose|a: int| 0 <= a < before.len() && before[a] == first_smallest(before);
        let b = choose|b: int| 0 <= b < before.len() && before[b] == last_largest(before);
        assert(numbers[a] == first_smallest(before));
        assert(numbers[b] == last_largest(before));
        assert(numbers.last() == numbers[numbers.len() - 1]);
    }
}

/// Of two numbers, one is below the other or they are the same, and never both.
pub proof fn numbers_are_ordered(a: Double, b: Double)
    requires
        !a.is_nan(),
        !b.is_nan(),
    ensures
        a.below(b) || a.same(b) || b.below(a),
        !(a.below(b) && b.below(a)),
        a.same(b) ==> !a.below(b) && !b.below(a),
{
}

/// Being below carries over.
pub proof fn below_is_transitive(a: Double, b: Double, c: Double)
    requires
        a.below(b) || a.same(b),
        b.below(c) || b.same(c),
    ensures
        a.below(c) || a.same(c),
        a.below(b) || b.below(c) ==> a.below(c),
{
}

/// Numbers are ordered by their signs and magnitudes. The two zeros are the same number. Any
/// number with a sign is below any without one, but for the zeros. Without a sign a number with
/// the larger magnitude is the larger, and with one it is the smaller. What is not a number is
/// neither below another nor the same as one, itself among them.
pub proof fn signs_and_magnitudes_order_numbers(a: Double, b: Double)
    ensures
        a.is_nan() || b.is_nan() ==> !a.below(b) && !a.same(b),
        !a.is_nan() ==> a.same(a) && !a.below(a),
        a@ == 0 && b@ == 0x8000_0000_0000_0000 ==> a.same(b) && !a.below(b) && !b.below(a),
        a@ <= 0x7ff0_0000_0000_0000 && b@ <= 0x7ff0_0000_0000_0000 ==> (a.below(b) <==> a@ < b@),
        0x8000_0000_0000_0000 <= a@ <= 0xfff0_0000_0000_0000 && 0x8000_0000_0000_0000 <= b@
            <= 0xfff0_0000_0000_0000 ==> (a.below(b) <==> a@ > b@),
        0x8000_0000_0000_0000 < a@ <= 0xfff0_0000_0000_0000 && b@ <= 0x7ff0_0000_0000_0000
            ==> a.below(b),
        a@ <= 0x7ff0_0000_0000_0000 && 0x8000_0000_0000_0000 <= b@ ==> !a.below(b),
        a.is_nan() <==> 0x7ff0_0000_0000_0000 < a@ < 0x8000_0000_0000_0000
            || 0xfff0_0000_0000_0000 < a@,
        a.same(b) && a@ != b@ ==> (a@ == 0 || b@ == 0) && (a@ == 0x8000_0000_0000_0000 || b@
            == 0x8000_0000_0000_0000),
{
}

/// Where several numbers are the smallest, the first of them is taken; where several are the
/// largest, the last.
pub proof fn the_first_smallest_and_the_last_largest_are_taken(numbers: Seq<Double>, k: int)
    requires
        0 <= k < numbers.len(),
        forall|j: int| 0 <= j < numbers.len() ==> !(#[trigger] numbers[j]).is_nan(),
    ensures
        (forall|j: int| 0 <= j < k ==> numbers[k].below(#[trigger] numbers[j])) && (forall|j: int|
            k < j < numbers.len() ==> !(#[trigger] numbers[j]).below(numbers[k]))
            ==> first_smallest(numbers) == numbers[k],
        (forall|j: int| k < j < numbers.len() ==> (#[trigger] numbers[j]).below(numbers[k])) && (
        forall|j: int| 0 <= j < k ==> !numbers[k].below(#[trigger] numbers[j]))
            ==> last_largest(numbers) == numbers[k],
    decreases numbers.len(),
{
    if numbers.len() > 1 {
        let rest = numbers.drop_last();
        assert(forall|j: int| 0 <= j < rest.len() ==> #[trigger] rest[j] == numbers[j]);
        if k < rest.len() {
            the_first_smallest_and_the_last_largest_are_taken(rest, k);
            assert(numbers.last() == numbers[numbers.len() - 1]);
        } else {
            smallest_and_largest_bound_the_others(rest, 0);
            let s = choose|s: int| 0 <= s < rest.len() && rest[s] == first_smallest(rest);
            let l = choose|l: int| 0 <= l < rest.len() && rest[l] == last_largest(rest);
            assert(numbers[s] == first_smallest(rest));
            assert(numbers[l] == last_largest(rest));
        }
    }
}

} // verus!
