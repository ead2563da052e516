//! How frequencies and times are written: in which unit, and with how many digits.

use crate::double::Double;
use vstd::prelude::*;

verus! {

/// The bits of a thousand, a million, a thousand million and a million million.
pub const KILO_BITS: u64 = 0x408f_4000_0000_0000;

pub const MEGA_BITS: u64 = 0x412e_8480_0000_0000;

pub const GIGA_BITS: u64 = 0x41cd_cd65_0000_0000;

pub const TERA_BITS: u64 = 0x426d_1a94_a200_0000;

#[derive(Clone, Copy, Debug, PartialEq, Eq, Structural)]
pub enum FreqUnit {
    Hz,
    KHz,
    MHz,
    GHz,
}

/// How a frequency is written.
#[derive(Clone, Copy, Debug, PartialEq, Eq, Structural)]
pub struct FreqFormat {
    pub unit: FreqUnit,
    /// How many digits follow the decimal point.
    pub digits: usize,
}

impl FreqUnit {
    /// How many digits of a frequency in hertz come before the decimal point of one in
    /// this unit.
    pub open spec fn exponent(self) -> int {
        match self {
            FreqUnit::Hz => 0,
            FreqUnit::KHz => 3,
            FreqUnit::MHz => 6,
            FreqUnit::GHz => 9,
        }
    }
}

/// How many digits follow the decimal point, where the last one stands for ten to the
/// power of `precision` and the one before the point for ten to the power of `exponent`.
pub open spec fn digits_after_point(exponent: int, precision: int) -> int {
    if exponent < precision {
        0
    } else {
        exponent - precision
    }
}

/// The unit that a frequency is written in: the largest that it makes up at least one of.
/// Frequencies that are negative or too large are not written.
pub open spec fn freq_unit(freq: Double) -> Option<FreqUnit> {
    let is_below = |bits: u64| freq.rank() < bits;
    if freq.is_nan() || freq.rank() < 0 || !is_below(TERA_BITS) {
        None
    } else if is_below(KILO_BITS) {
        Some(FreqUnit::Hz)
    } else if is_below(MEGA_BITS) {
        Some(FreqUnit::KHz)
    } else if is_below(GIGA_BITS) {
        Some(FreqUnit::MHz)
    } else {
        Some(FreqUnit::GHz)
    }
}

/// How a frequency is written, if it can be.
pub fn format_freq(freq: Double, precision: i32) -> (format: Option<FreqFormat>)
    requires
        freq_unit(freq) matches Some(unit) ==> precision > i32::MIN + unit.exponent(),
    ensures
        match freq_unit(freq) {
            Some(unit) => format is Some && format->0.unit == unit && format->0.digits
                == digits_after_point(unit.exponent(), precision as int),
            None => format is None,
        },
{
    let zero = Double::from_bits(0);
    let unit: FreqUnit = if freq.lt(zero) {
        return None;
    } else if freq.lt(Double::from_bits(KILO_BITS)) {
        FreqUnit::Hz
    } else if freq.lt(Double::from_bits(MEGA_BITS)) {
        FreqUnit::KHz
    } else if freq.lt(Double::from_bits(GIGA_BITS)) {
        FreqUnit::MHz
    } else if freq.lt(Double::from_bits(TERA_BITS)) {
        FreqUnit::GHz
    } else {
        return None;
    };
    let exponent: i32 = match unit {
        FreqUnit::Hz => 0,
        FreqUnit::KHz => 3,
        FreqUnit::MHz => 6,
        FreqUnit::GHz => 9,
    };
    let digits: usize = if exponent < precision {
        0
    } else {
        (exponent - precision) as usize
    };
    Some(FreqFormat { unit, digits })
}

/// How many digits follow the decimal point of a time in seconds.
pub fn format_time(precision: i32) -> (digits: usize)
    requires
        precision > i32::MIN,
    ensures
        digits == digits_after_point(0, precision as int),
{
    if 0 < precision {
        0
    } else {
        (-precision) as usize
    }
}

/// A frequency is written in the largest unit of which it holds at least one: in hertz below a
/// thousand, in kilohertz below a million, in megahertz below a milliard, in gigahertz below a
/// billion of them. What is below zero, larger still or not a number is not written.
pub proof fn frequencies_are_written_in_the_largest_unit(freq: Double)
    ensures
        freq@ < 0x408f_4000_0000_0000 || freq@ == 0x8000_0000_0000_0000 ==> freq_unit(freq) == Some(
            FreqUnit::Hz,
        ),
        0x408f_4000_0000_0000 <= freq@ < 0x412e_8480_0000_0000 ==> freq_unit(freq) == Some(
            FreqUnit::KHz,
        ),
        0x412e_8480_0000_0000 <= freq@ < 0x41cd_cd65_0000_0000 ==> freq_unit(freq) == Some(
            FreqUnit::MHz,
        ),
        0x41cd_cd65_0000_0000 <= freq@ < 0x426d_1a94_a200_0000 ==> freq_unit(freq) == Some(
            FreqUnit::GHz,
        ),
        0x426d_1a94_a200_0000 <= freq@ && freq@ != 0x8000_0000_0000_0000 ==> freq_unit(freq)
            is None,
{
}

/// Each unit is a thousand of the one before it.
pub proof fn units_are_thousands()
    ensures
        FreqUnit::Hz.exponent() == 0,
        FreqUnit::KHz.exponent() == FreqUnit::Hz.exponent() + 3,
        FreqUnit::MHz.exponent() == FreqUnit::KHz.exponent() + 3,
        FreqUnit::GHz.exponent() == FreqUnit::MHz.exponent() + 3,
{
}

/// The digits behind the point reach down to the precision, and there are none where the unit is
/// finer than that.
pub proof fn digits_reach_down_to_the_precision(exponent: int, precision: int)
    ensures
        digits_after_point(exponent, precision) >= 0,
        exponent >= precision ==> digits_after_point(exponent, precision) + precision == exponent,
        exponent <= precision ==> digits_after_point(exponent, precision) == 0,
{
}

} // verus!
