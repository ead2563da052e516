//! Picking a channel out of spectra, and deciding when there is a transmission on it.

use crate::double::Double;
use crate::id_factory::IdFactory;
use vstd::prelude::*;

verus! {

/// The bins of a spectrum that make up a channel, and how they are laid out in the
/// spectrum that the channel is recovered from: in the middle, with a margin of empty
/// bins on each side.
#[derive(Clone, Copy, Debug, PartialEq, Eq, Structural)]
pub struct ChannelBins {
    pub fft_size: usize,
    pub left_bin: usize,
    pub right_bin: usize,
    pub margin_bin_count: usize,
}

/// The bin that the frequency in the middle of a spectrum falls into.
pub open spec fn dc_bin(fft_size: int) -> int {
    (fft_size + 1) / 2
}

impl ChannelBins {
    /// Whether the channel lies within the spectrum.
    pub open spec fn wf(self) -> bool {
        &&& self.left_bin < self.right_bin <= self.fft_size
        &&& self.ifft_bins() <= usize::MAX
    }

    /// The size of the spectrum that the channel is recovered from.
    pub open spec fn ifft_bins(self) -> int {
        self.right_bin - self.left_bin + 2 * self.margin_bin_count
    }

    /// The bins around `center_bin`, if they all lie within the spectrum.
    pub fn new(
        fft_size: usize,
        center_bin: usize,
        signal_bin_count: usize,
        margin_bin_count: usize,
    ) -> (bins: Option<ChannelBins>)
        requires
            signal_bin_count >= 1,
            signal_bin_count + 2 * margin_bin_count < usize::MAX,
            center_bin + signal_bin_count <= usize::MAX,
        ensures
            ({
                let left = center_bin - (dc_bin(signal_bin_count + 2 * margin_bin_count)
                    - margin_bin_count);
                &&& bins is Some <==> 0 <= left && left + signal_bin_count <= fft_size
                &&& bins is Some ==> bins->0 == (ChannelBins {
                    fft_size,
                    left_bin: left as usize,
                    right_bin: (left + signal_bin_count) as usize,
                    margin_bin_count,
                }) && bins->0.wf()
            }),
    {
        let ifft_size: usize = signal_bin_count + 2 * margin_bin_count;
        let before: usize = (ifft_size + 1) / 2 - margin_bin_count;
        if center_bin < before {
            return None;
        }
        let left_bin: usize = center_bin - before;
        let right_bin: usize = left_bin + signal_bin_count;
        if right_bin > fft_size {
            return None;
        }
        Some(ChannelBins { fft_size, left_bin, right_bin, margin_bin_count })
    }

    /// The size of the spectrum that the channel is recovered from.
    pub fn ifft_size(&self) -> (size: usize)
        requires
            self.wf(),
        ensures
            size == self.ifft_bins(),
    {
        self.right_bin - self.left_bin + 2 * self.margin_bin_count
    }

    /// What bin `bin` of the spectrum that the channel is recovered from holds.
    pub open spec fn bin_of<T>(self, spectrum: Seq<T>, zero: T, bin: int) -> T {
        let inner = bin - self.margin_bin_count;
        if 0 <= inner < self.right_bin - self.left_bin {
            spectrum[self.left_bin + inner]
        } else {
            zero
        }
    }

    /// The spectrum that the channel is recovered from.
    pub open spec fn gathered<T>(self, spectrum: Seq<T>, zero: T) -> Seq<T> {
        Seq::new(self.ifft_bins() as nat, |bin: int| self.bin_of(spectrum, zero, bin))
    }

    /// The spectra that the channel is recovered from, for spectra that follow each
    /// other. What is left over after the last whole one is ignored.
    pub open spec fn all_gathered<T>(self, spectra: Seq<T>, zero: T) -> Seq<T>
        decreases spectra.len(),
        when self.fft_size > 0
    {
        if spectra.len() < self.fft_size {
            Seq::empty()
        } else {
            self.gathered(spectra.take(self.fft_size as int), zero) + self.all_gathered(
                spectra.skip(self.fft_size as int),
                zero,
            )
        }
    }

    /// Picks the channel out of one spectrum.
    fn gather_one<T: Copy>(&self, data: &Vec<T>, from: usize, zero: T, out: &mut Vec<T>)
        requires
            self.wf(),
            from + self.fft_size <= data@.len(),
        ensures
            final(out)@ == old(out)@ + self.gathered(
                data@.subrange(from as int, from + self.fft_size),
                zero,
            ),
    {
        let size: usize = self.ifft_size();
        let total: usize = data.len();
        let ghost before = out@;
        let ghost one = data@.subrange(from as int, from + self.fft_size);
        let ghost wanted = self.gathered(one, zero);
        let mut bin: usize = 0;
        while bin < size
            invariant
                self.wf(),
                total == data@.len(),
                from + self.fft_size <= total,
                bin <= size,
                size == self.ifft_bins(),
                one == data@.subrange(from as int, from + self.fft_size),
                wanted == self.gathered(one, zero),
                out@ == before + wanted.take(bin as int),
            decreases size - bin,
        {
            let value: T = if bin >= self.margin_bin_count && bin - self.margin_bin_count
                < self.right_bin - self.left_bin {
                data[from + self.left_bin + (bin - self.margin_bin_count)]
            } else {
                zero
            };
            out.push(value);
            assert(wanted.take(bin as int + 1) =~= wanted.take(bin as int).push(
                wanted[bin as int],
            ));
            bin = bin + 1;
        }
        assert(wanted.take(bin as int) =~= wanted);
    }

    /// Picks the channel out of spectra that follow each other.
    pub fn gather<T: Copy>(&self, data: &Vec<T>, zero: T) -> (out: Vec<T>)
        requires
            self.wf(),
        ensures
            out@ == self.all_gathered(data@, zero),
    {
        let mut out: Vec<T> = Vec::new();
        let mut from: usize = 0;
        assert(data@.skip(0) =~= data@);
        while data.len() - from >= self.fft_size
            invariant
                self.wf(),
                from <= data@.len(),
                out@ + self.all_gathered(data@.skip(from as int), zero) == self.all_gathered(
                    data@,
                    zero,
                ),
            decreases data@.len() - from,
        {
            let ghost rest = data@.skip(from as int);
            let ghost before = out@;
            self.gather_one(data, from, zero, &mut out);
            proof {
                let size = self.fft_size as int;
                assert(rest.take(size) =~= data@.subrange(from as int, from + size));
                assert(rest.skip(size) =~= data@.skip(from + size));
                assert(out@ + self.all_gathered(data@.skip(from + size), zero) =~= before
                    + self.all_gathered(rest, zero));
            }
            from = from + self.fft_size;
        }
        assert(out@ + self.all_gathered(data@.skip(from as int), zero) =~= out@);
        out
    }
}

/// How many bins are picked for spectra of a given length, all together.
pub proof fn gathered_length<T>(bins: ChannelBins, spectra: Seq<T>, zero: T)
    requires
        bins.wf(),
    ensures
        bins.all_gathered(spectra, zero).len() == bins.ifft_bins() * (spectra.len() as int
            / bins.fft_size as int),
    decreases spectra.len(),
{
    let size = bins.fft_size as int;
    let len = spectra.len() as int;
    let bins_out = bins.ifft_bins();
    if len < size {
        assert(len / size == 0) by (nonlinear_arith)
            requires
                0 <= len < size,
        ;
        assert(bins_out * 0 == 0) by (nonlinear_arith);
    } else {
        gathered_length(bins, spectra.skip(size), zero);
        assert(len / size == (len - size) / size + 1) by (nonlinear_arith)
            requires
                size > 0,
                len >= size,
        ;
        let count = (len - size) / size;
        assert(bins_out * (count + 1) == bins_out + bins_out * count) by (nonlinear_arith);
    }
}

/// What a spectrum is cut down to: its first bins, filled up with empty ones.
pub open spec fn low_bins<T>(spectrum: Seq<T>, signal_bins: int, out_bins: int, zero: T) -> Seq<T> {
    Seq::new(
        out_bins as nat,
        |bin: int|
            if bin < signal_bins {
                spectrum[bin]
            } else {
                zero
            },
    )
}

/// Cuts spectra that follow each other down to their first `signal_bins` bins, each one
/// filled up to `out_bins` bins. This keeps out frequencies that could not be told apart
/// at the lower sample rate.
pub fn keep_low_bins<T: Copy>(
    spectra: &Vec<T>,
    in_bins: usize,
    out_bins: usize,
    signal_bins: usize,
    zero: T,
) -> (out: Vec<T>)
    requires
        0 < in_bins,
        signal_bins <= in_bins,
        signal_bins <= out_bins,
        (spectra@.len() / in_bins as nat) * out_bins <= usize::MAX,
    ensures
        out@.len() == (spectra@.len() / in_bins as nat) * out_bins,
        forall|k: int|
            0 <= k < spectra@.len() / in_bins as nat ==> #[trigger] out@.subrange(
                k * out_bins,
                (k + 1) * out_bins,
            ) == low_bins(
                spectra@.subrange(k * in_bins, (k + 1) * in_bins),
                signal_bins as int,
                out_bins as int,
                zero,
            ),
{
    let total: usize = spectra.len();
    let count: usize = total / in_bins;
    let mut out: Vec<T> = Vec::new();
    let mut k: usize = 0;
    proof {
        assert(0 * in_bins == 0) by (nonlinear_arith);
        assert(0 * out_bins == 0) by (nonlinear_arith);
        assert(count * in_bins <= spectra@.len()) by (nonlinear_arith)
            requires
                0 < in_bins,
                count == spectra@.len() / in_bins as nat,
        ;
    }
    let mut from: usize = 0;
    while k < count
        invariant
            0 < in_bins,
            signal_bins <= in_bins,
            signal_bins <= out_bins,
            k <= count,
            total == spectra@.len(),
            count * in_bins <= total,
            from == k * in_bins,
            out@.len() == k * out_bins,
            forall|j: int|
                0 <= j < k ==> #[trigger] out@.subrange(j * out_bins, (j + 1) * out_bins)
                    == low_bins(
                    spectra@.subrange(j * in_bins, (j + 1) * in_bins),
                    signal_bins as int,
                    out_bins as int,
                    zero,
                ),
        decreases count - k,
    {
        let ghost before = out@;
        let ghost wanted = low_bins(
            spectra@.subrange(k * in_bins, (k + 1) * in_bins),
            signal_bins as int,
            out_bins as int,
            zero,
        );
        proof {
            assert((k + 1) * in_bins == k * in_bins + in_bins) by (nonlinear_arith);
            assert((k + 1) * out_bins == k * out_bins + out_bins) by (nonlinear_arith);
            assert((k + 1) * in_bins <= count * in_bins) by (nonlinear_arith)
                requires
                    k + 1 <= count,
            ;
        }
        let mut bin: usize = 0;
        while bin < out_bins
            invariant
                bin <= out_bins,
                signal_bins <= in_bins,
                from == k * in_bins,
                (k + 1) * in_bins == from + in_bins,
                total == spectra@.len(),
                from + in_bins <= total,
                wanted == low_bins(
                    spectra@.subrange(k * in_bins, (k + 1) * in_bins),
                    signal_bins as int,
                    out_bins as int,
                    zero,
                ),
                out@ == before + wanted.take(bin as int),
            decreases out_bins - bin,
        {
            let value: T = if bin < signal_bins {
                spectra[from + bin]
            } else {
                zero
            };
            out.push(value);
            assert(wanted.take(bin as int + 1) =~= wanted.take(bin as int).push(
                wanted[bin as int],
            ));
            bin = bin + 1;
        }
        assert(wanted.take(bin as int) =~= wanted);
        proof {
            assert forall|j: int| 0 <= j < k + 1 implies #[trigger] out@.subrange(
                j * out_bins,
                (j + 1) * out_bins,
            ) == low_bins(
                spectra@.subrange(j * in_bins, (j + 1) * in_bins),
                signal_bins as int,
                out_bins as int,
                zero,
            ) by {
                if j < k {
                    assert((j + 1) * out_bins <= k * out_bins) by (nonlinear_arith)
                        requires
                            j + 1 <= k,
                    ;
                    assert(0 <= j * out_bins <= (j + 1) * out_bins) by (nonlinear_arith)
                        requires
                            0 <= j,
                    ;
                    assert(out@.subrange(j * out_bins, (j + 1) * out_bins) =~= before.subrange(
                        j * out_bins,
                        (j + 1) * out_bins,
                    ));
                } else {
                    assert(out@.subrange(j * out_bins, (j + 1) * out_bins) =~= wanted);
                }
            }
        }
        from = from + in_bins;
        k = k + 1;
    }
    out
}

/// The sign that undoes the phase shift of spectra that overlap by half: of the channel
/// in a bin with an odd number, every other spectrum is turned around.
#[derive(Clone, Copy, Debug, PartialEq, Eq, Structural)]
pub struct PhaseCorrection {
    /// Whether the number of the bin in the middle of the channel is odd.
    pub odd_bin: bool,
    /// Whether an odd number of spectra came before.
    pub counter: bool,
}

impl PhaseCorrection {
    /// The correction for a channel around `center_bin`.
    pub fn new(center_bin: usize) -> (correction: Self)
        ensures
            correction == (PhaseCorrection { odd_bin: center_bin % 2 == 1, counter: false }),
    {
        PhaseCorrection { odd_bin: center_bin % 2 == 1, counter: false }
    }

    /// Whether the spectrum that comes after `count` others is turned around.
    pub open spec fn turns(self, count: nat) -> bool {
        self.odd_bin && (self.counter != (count % 2 == 1))
    }

    /// Which of the next spectra are turned around.
    pub fn next_signs(&mut self, fft_count: usize) -> (turned: Vec<bool>)
        ensures
            turned@ == Seq::new(fft_count as nat, |k: int| old(self).turns(k as nat)),
            *final(self) == (PhaseCorrection {
                counter: old(self).counter != (fft_count % 2 == 1),
                ..*old(self)
            }),
    {
        let mut turned: Vec<bool> = Vec::new();
        let mut k: usize = 0;
        while k < fft_count
            invariant
                k <= fft_count,
                turned@ == Seq::new(k as nat, |k: int| old(self).turns(k as nat)),
                *self == (PhaseCorrection {
                    counter: old(self).counter != (k % 2 == 1),
                    ..*old(self)
                }),
            decreases fft_count - k,
        {
            turned.push(self.odd_bin && self.counter);
            self.counter = !self.counter;
            assert(turned@ =~= Seq::new(k as nat + 1, |k: int| old(self).turns(k as nat)));
            k = k + 1;
        }
        turned
    }
}

/// The correction goes on from call to call: two calls turn around what one call for
/// as many spectra would.
pub proof fn signs_go_on(before: PhaseCorrection, first: nat, second: nat)
    ensures
        (PhaseCorrection { counter: before.counter != (first % 2 == 1), ..before }).turns(second)
            == before.turns(first + second),
{
}

/// What happens on a channel.
#[derive(Clone, Copy, Debug, PartialEq, Eq, Structural)]
pub enum SquelchOutcome {
    /// Nothing is transmitted.
    Silent,
    Started(usize),
    Continued(usize),
    Ended(usize),
}

/// Decides when there is a transmission on a channel. One starts when the energy on the
/// channel exceeds `high`, and lasts until it falls below `low`.
#[derive(Clone, Copy, Debug)]
pub struct Squelch {
    pub low: Double,
    pub high: Double,
    pub active_transmission: Option<usize>,
}

impl Squelch {
    /// What happens on the channel, where a new transmission would be numbered `next`.
    pub open spec fn outcome(self, energy: Double, next: usize) -> SquelchOutcome {
        match self.active_transmission {
            Some(id) => if energy.below(self.low) {
                SquelchOutcome::Ended(id)
            } else {
                SquelchOutcome::Continued(id)
            },
            None => if self.high.below(energy) {
                SquelchOutcome::Started(next)
            } else {
                SquelchOutcome::Silent
            },
        }
    }

    /// The transmission that lasts after an outcome.
    pub open spec fn lasting(outcome: SquelchOutcome) -> Option<usize> {
        match outcome {
            SquelchOutcome::Silent => None,
            SquelchOutcome::Started(id) => Some(id),
            SquelchOutcome::Continued(id) => Some(id),
            SquelchOutcome::Ended(id) => None,
        }
    }

    /// Takes up the energy on the channel.
    pub fn update(&mut self, energy: Double, ids: &mut IdFactory) -> (outcome: SquelchOutcome)
        requires
            old(ids).next_id() < usize::MAX,
        ensures
            outcome == old(self).outcome(energy, old(ids).next_id() as usize),
            *final(self) == (Squelch {
                active_transmission: Squelch::lasting(outcome),
                ..*old(self)
            }),
            final(ids).next_id() == if outcome is Started {
                old(ids).next_id() + 1
            } else {
                old(ids).next_id()
            },
    {
        match self.active_transmission {
            Some(id) => if energy.lt(self.low) {
                self.active_transmission = None;
                SquelchOutcome::Ended(id)
            } else {
                SquelchOutcome::Continued(id)
            },
            None => if self.high.lt(energy) {
                let id: usize = ids.create();
                self.active_transmission = Some(id);
                SquelchOutcome::Started(id)
            } else {
                SquelchOutcome::Silent
            },
        }
    }

    /// Ends the transmission that lasts, if there is one.
    pub fn end_transmission(&mut self) -> (ended: Option<usize>)
        ensures
            ended == old(self).active_transmission,
            *final(self) == (Squelch { active_transmission: None, ..*old(self) }),
    {
        let ended: Option<usize> = self.active_transmission;
        self.active_transmission = None;
        ended
    }
}

/// While the energy stays between the two thresholds, transmissions neither start nor
/// end.
pub proof fn squelch_has_hysteresis(squelch: Squelch, energy: Double, next: usize)
    requires
        !energy.below(squelch.low),
        !squelch.high.below(energy),
    ensures
        Squelch::lasting(squelch.outcome(energy, next)) == squelch.active_transmission,
{
}

/// The bin in the middle of a channel is the bin of frequency zero of what is recovered from it,
/// and the bins beside it stay beside it. The margins are empty.
pub proof fn channels_are_centered<T>(
    bins: ChannelBins,
    center_bin: int,
    spectrum: Seq<T>,
    zero: T,
    beside: int,
)
    requires
        bins.wf(),
        spectrum.len() == bins.fft_size,
        bins.left_bin == center_bin - (dc_bin(bins.ifft_bins()) - bins.margin_bin_count),
    ensures
        ({
            let gathered = bins.gathered(spectrum, zero);
            let dc = (bins.ifft_bins() + 1) / 2;
            &&& gathered.len() == bins.right_bin - bins.left_bin + 2 * bins.margin_bin_count
            &&& bins.left_bin <= center_bin + beside < bins.right_bin ==> gathered[dc + beside]
                == spectrum[center_bin + beside]
            &&& 0 <= dc + beside < gathered.len() && !(bins.left_bin <= center_bin + beside
                < bins.right_bin) ==> gathered[dc + beside] == zero
            &&& 0 <= beside < bins.margin_bin_count ==> gathered[beside] == zero
                && gathered[gathered.len() - 1 - beside] == zero
        }),
{
}

/// Spectra are gathered one by one, and what is left over of them is not.
pub proof fn spectra_are_gathered_one_by_one<T>(
    bins: ChannelBins,
    first: Seq<T>,
    rest: Seq<T>,
    zero: T,
)
    requires
        bins.wf(),
        first.len() == bins.fft_size,
    ensures
        bins.all_gathered(first + rest, zero) == bins.gathered(first, zero) + bins.all_gathered(
            rest,
            zero,
        ),
        rest.len() < bins.fft_size ==> bins.all_gathered(rest, zero).len() == 0,
{
    assert((first + rest).take(bins.fft_size as int) =~= first);
    assert((first + rest).skip(bins.fft_size as int) =~= rest);
}

/// The bins below the limit are kept, and the others are empty.
pub proof fn low_bins_are_kept<T>(
    spectrum: Seq<T>,
    signal_bins: int,
    out_bins: int,
    zero: T,
    bin: int,
)
    requires
        0 <= bin < out_bins,
    ensures
        low_bins(spectrum, signal_bins, out_bins, zero).len() == out_bins,
        bin < signal_bins ==> low_bins(spectrum, signal_bins, out_bins, zero)[bin] == spectrum[bin],
        bin >= signal_bins ==> low_bins(spectrum, signal_bins, out_bins, zero)[bin] == zero,
{
}

/// Every other spectrum of a channel around an odd bin is turned, and none of any other. The
/// first one is not.
pub proof fn every_other_spectrum_is_turned(correction: PhaseCorrection, count: nat)
    ensures
        correction.odd_bin ==> correction.turns(count + 1) == !correction.turns(count),
        !correction.odd_bin ==> !correction.turns(count),
        correction.odd_bin ==> correction.turns(0) == correction.counter,
{
}

/// A transmission starts where there is none and the energy is above the upper threshold, and
/// ends where it is below the lower one. It is told by the same number until it has ended.
pub proof fn energy_starts_and_ends_transmissions(squelch: Squelch, energy: Double, next: usize)
    ensures
        squelch.outcome(energy, next) is Started <==> squelch.active_transmission is None
            && squelch.high.below(energy),
        squelch.outcome(energy, next) is Ended <==> squelch.active_transmission is Some
            && energy.below(squelch.low),
        squelch.outcome(energy, next) is Silent <==> squelch.active_transmission is None
            && !squelch.high.below(energy),
        squelch.outcome(energy, next) is Continued <==> squelch.active_transmission is Some
            && !energy.below(squelch.low),
        squelch.outcome(energy, next) matches SquelchOutcome::Started(id) ==> id == next
            && Squelch::lasting(squelch.outcome(energy, next)) == Some(next),
        squelch.outcome(energy, next) matches SquelchOutcome::Continued(id)
            ==> squelch.active_transmission == Some(id) && Squelch::lasting(
            squelch.outcome(energy, next),
        ) == Some(id),
        squelch.outcome(energy, next) matches SquelchOutcome::Ended(id)
            ==> squelch.active_transmission == Some(id) && Squelch::lasting(
            squelch.outcome(energy, next),
        ) is None,
        squelch.outcome(energy, next) is Silent ==> Squelch::lasting(squelch.outcome(energy, next))
            is None,
{
}

} // verus!
