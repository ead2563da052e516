//! What kinds of processors there are, and what each one is made from.

use crate::double::Double;
use vstd::prelude::*;

verus! {

/// The channel that is listened to, and how loud it has to be.
#[derive(Debug)]
pub struct FmProcessorParameters {
    pub frequency: Double,
    pub bandwidth: Double,
    pub squelch_db: Double,
    pub squelch_hysteresis_db: Double,
}

/// The bits of the numbers that a processor starts with: a hundred million hertz, two
/// hundred thousand hertz, minus a hundred decibels and three decibels.
pub const DEFAULT_FREQUENCY_BITS: u64 = 0x4197_d784_0000_0000;

pub const DEFAULT_BANDWIDTH_BITS: u64 = 0x4108_6a00_0000_0000;

pub const DEFAULT_SQUELCH_BITS: u64 = 0xc059_0000_0000_0000;

pub const DEFAULT_HYSTERESIS_BITS: u64 = 0x4008_0000_0000_0000;

impl Default for FmProcessorParameters {
    fn default() -> (parameters: Self)
        ensures
            starts_out(parameters),
    {
        FmProcessorParameters {
            frequency: Double::from_bits(DEFAULT_FREQUENCY_BITS),
            bandwidth: Double::from_bits(DEFAULT_BANDWIDTH_BITS),
            squelch_db: Double::from_bits(DEFAULT_SQUELCH_BITS),
            squelch_hysteresis_db: Double::from_bits(DEFAULT_HYSTERESIS_BITS),
        }
    }
}

impl Clone for FmProcessorParameters {
    fn clone(&self) -> (parameters: Self)
        ensures
            parameters == *self,
    {
        FmProcessorParameters {
            frequency: self.frequency,
            bandwidth: self.bandwidth,
            squelch_db: self.squelch_db,
            squelch_hysteresis_db: self.squelch_hysteresis_db,
        }
    }
}

impl PartialEq for FmProcessorParameters {
    /// Whether all numbers are the same.
    fn eq(&self, other: &Self) -> (same: bool) {
        self.frequency.eq(other.frequency) && self.bandwidth.eq(other.bandwidth)
            && self.squelch_db.eq(other.squelch_db) && self.squelch_hysteresis_db.eq(
            other.squelch_hysteresis_db,
        )
    }
}

impl vstd::std_specs::cmp::PartialEqSpecImpl for FmProcessorParameters {
    open spec fn obeys_eq_spec() -> bool {
        true
    }

    open spec fn eq_spec(&self, other: &Self) -> bool {
        &&& self.frequency.same(other.frequency)
        &&& self.bandwidth.same(other.bandwidth)
        &&& self.squelch_db.same(other.squelch_db)
        &&& self.squelch_hysteresis_db.same(other.squelch_hysteresis_db)
    }
}

/// What a processor of some kind is made from.
#[derive(Debug)]
pub enum SpecificProcessorParameters {
    Fm(FmProcessorParameters),
}

impl Clone for SpecificProcessorParameters {
    fn clone(&self) -> (parameters: Self)
        ensures
            parameters == *self,
    {
        match self {
            SpecificProcessorParameters::Fm(parameters) => SpecificProcessorParameters::Fm(
                parameters.clone(),
            ),
        }
    }
}

impl PartialEq for SpecificProcessorParameters {
    fn eq(&self, other: &Self) -> (same: bool) {
        match (self, other) {
            (
                SpecificProcessorParameters::Fm(parameters),
                SpecificProcessorParameters::Fm(other_parameters),
            ) => parameters == other_parameters,
        }
    }
}

impl vstd::std_specs::cmp::PartialEqSpecImpl for SpecificProcessorParameters {
    open spec fn obeys_eq_spec() -> bool {
        true
    }

    open spec fn eq_spec(&self, other: &Self) -> bool {
        match (self, other) {
            (
                SpecificProcessorParameters::Fm(parameters),
                SpecificProcessorParameters::Fm(other_parameters),
            ) => vstd::std_specs::cmp::PartialEqSpec::eq_spec(parameters, other_parameters),
        }
    }
}

/// The kinds of processors, as they are shown.
pub open spec fn kind_names() -> Seq<Seq<char>> {
    seq!["FM Demodulator"@]
}

/// Whether a processor listens to what it listens to at the start.
pub open spec fn starts_out(parameters: FmProcessorParameters) -> bool {
    &&& parameters.frequency@ == DEFAULT_FREQUENCY_BITS
    &&& parameters.bandwidth@ == DEFAULT_BANDWIDTH_BITS
    &&& parameters.squelch_db@ == DEFAULT_SQUELCH_BITS
    &&& parameters.squelch_hysteresis_db@ == DEFAULT_HYSTERESIS_BITS
}

impl SpecificProcessorParameters {
    /// The kind of a processor, as a number into the kinds that there are.
    pub open spec fn kind(&self) -> int {
        match self {
            SpecificProcessorParameters::Fm(_) => 0,
        }
    }

    /// The kinds of processors, as they are shown, each one with what a processor of that
    /// kind starts with.
    pub fn available_types() -> (types: Vec<(&'static str, SpecificProcessorParameters)>)
        ensures
            types@.len() == kind_names().len(),
            forall|k: int|
                0 <= k < types@.len() ==> (#[trigger] types@[k]).0@ == kind_names()[k]
                    && types@[k].1.kind() == k,
            types@[0].1 matches SpecificProcessorParameters::Fm(parameters) && starts_out(
                parameters,
            ),
    {
        let mut types: Vec<(&'static str, SpecificProcessorParameters)> = Vec::new();
        types.push(
            (
                "FM Demodulator",
                SpecificProcessorParameters::Fm(FmProcessorParameters::default()),
            ),
        );
        types
    }

    /// The kind of a processor, as it is shown.
    pub fn kind_name(&self) -> (name: &'static str)
        ensures
            name@ == kind_names()[self.kind()],
    {
        match self {
            SpecificProcessorParameters::Fm(_) => "FM Demodulator",
        }
    }
}

/// Parameters are equal exactly where each of their numbers is the same.
pub proof fn equal_parameters_agree_in_everything(
    a: FmProcessorParameters,
    b: FmProcessorParameters,
)
    ensures
        vstd::std_specs::cmp::PartialEqSpec::eq_spec(&a, &b) <==> a.frequency.same(b.frequency)
            && a.bandwidth.same(b.bandwidth) && a.squelch_db.same(b.squelch_db)
            && a.squelch_hysteresis_db.same(b.squelch_hysteresis_db),
        vstd::std_specs::cmp::PartialEqSpec::eq_spec(
            &SpecificProcessorParameters::Fm(a),
            &SpecificProcessorParameters::Fm(b),
        ) <==> a.frequency.same(b.frequency) && a.bandwidth.same(b.bandwidth)
            && a.squelch_db.same(b.squelch_db) && a.squelch_hysteresis_db.same(
            b.squelch_hysteresis_db,
        ),
{
}

/// A new processor listens at a hundred megahertz, two hundred kilohertz wide, with a threshold
/// at a hundred decibels below full scale and three decibels of hysteresis.
pub proof fn new_processors_listen(parameters: FmProcessorParameters)
    requires
        starts_out(parameters),
    ensures
        parameters.frequency@ == 0x4197_d784_0000_0000,
        parameters.bandwidth@ == 0x4108_6a00_0000_0000,
        parameters.squelch_db@ == 0xc059_0000_0000_0000,
        parameters.squelch_hysteresis_db@ == 0x4008_0000_0000_0000,
{
}

} // verus!
