//! Cutting the samples of a clip into overlapping windows, all of the size of a spectrum.

use crate::dsp::overlap::{expanding_in_pieces, last_half, overlapped, OverlapExpand};
use crate::dsp::rechunk::all_cloned;
use crate::mip::next_power_of_two;
use vstd::arithmetic::power2::pow2;
use vstd::prelude::*;

verus! {

/// The size of the spectra of a clip: the smallest power of two that is not below the
/// number of bins that there have to be.
pub fn fft_size(min_fft_size: usize) -> (size: usize)
    requires
        exists|k: nat| min_fft_size <= #[trigger] pow2(k) <= usize::MAX,
    ensures
        exists|k: nat| size == #[trigger] pow2(k),
        min_fft_size <= size,
        forall|k: nat| min_fft_size <= #[trigger] pow2(k) ==> size <= pow2(k),
{
    next_power_of_two(min_fft_size)
}

/// How many of `len` items make up whole groups of `size`.
pub open spec fn whole_part(len: nat, size: nat) -> int {
    len as int / size as int * size as int
}

/// Cuts the samples of a clip into windows.
pub struct StreamPreprocessor<T> {
    fft_size: usize,
    buffer: Vec<T>,
    overlap_expand: OverlapExpand<T>,
}

impl<T> StreamPreprocessor<T> {
    /// The size of the windows.
    pub closed spec fn size(&self) -> nat {
        self.fft_size as nat
    }

    /// The samples that do not make up a window yet.
    pub closed spec fn pending(&self) -> Seq<T> {
        self.buffer@
    }

    /// The last half window that was taken in.
    pub closed spec fn previous(&self) -> Seq<T> {
        self.overlap_expand.previous()
    }

    pub closed spec fn wf(&self) -> bool {
        &&& self.overlap_expand.wf()
        &&& self.fft_size > 0
        &&& self.fft_size == 2 * self.overlap_expand.half()
    }

    /// Starts a clip, as if half a window of default values had come before it.
    pub fn new(fft_size: usize) -> (preprocessor: Self)
        where
            T: Clone + Default,
        requires
            fft_size > 0,
            fft_size % 2 == 0,
        ensures
            preprocessor.wf(),
            preprocessor.size() == fft_size,
            preprocessor.pending() == Seq::<T>::empty(),
            2 * preprocessor.previous().len() == fft_size,
            exists|d: T|
                #[trigger] call_ensures(T::default, (), d) && forall|i: int|
                    0 <= i < preprocessor.previous().len() ==> cloned(
                        d,
                        #[trigger] preprocessor.previous()[i],
                    ),
    {
        let overlap_expand = OverlapExpand::new(fft_size);
        StreamPreprocessor { fft_size, buffer: Vec::new(), overlap_expand }
    }

    /// Takes in samples. Those that make up whole windows come out, each one twice: in a
    /// window that starts half a window earlier, and in the window itself. The others are
    /// kept until more arrive.
    pub fn process(&mut self, samples: Vec<T>) -> (windows: Vec<T>)
        where
            T: Clone,
        requires
            old(self).wf(),
            old(self).pending().len() + samples@.len() <= usize::MAX,
        ensures
            final(self).wf(),
            final(self).size() == old(self).size(),
            ({
                let stream = old(self).pending() + samples@;
                let cut = whole_part(stream.len(), old(self).size());
                let half = old(self).size() / 2;
                &&& final(self).pending() == stream.skip(cut)
                &&& all_cloned(
                    overlapped(old(self).previous() + stream.take(cut), half),
                    windows@,
                )
                &&& all_cloned(
                    last_half(old(self).previous() + stream.take(cut), half),
                    final(self).previous(),
                )
            }),
    {
        let ghost stream = self.buffer@ + samples@;
        let mut samples: Vec<T> = samples;
        self.buffer.append(&mut samples);
        let size: usize = self.fft_size;
        let len: usize = self.buffer.len();
        proof {
            vstd::arithmetic::div_mod::lemma_mod_decreases(len as nat, size as nat);
        }
        let split_pt: usize = len - len % size;
        proof {
            let l = len as int;
            let s = size as int;
            vstd::arithmetic::div_mod::lemma_fundamental_div_mod(l, s);
            assert(s * (l / s) == (l / s) * s) by (nonlinear_arith);
            vstd::arithmetic::div_mod::lemma_mod_multiples_basic(l / s, s);
            assert(split_pt == whole_part(stream.len(), size as nat));
        }
        let rest: Vec<T> = self.buffer.split_off(split_pt);
        let windows: Vec<T> = self.overlap_expand.process(self.buffer.as_slice());
        self.buffer = rest;
        assert(rest@ =~= stream.skip(split_pt as int));
        windows
    }
}

/// Groups that are whole already stay whole when more items arrive: those that become whole
/// with `more` items are the ones that are whole in the rest of `len` items and these.
proof fn whole_parts_add_up(len: nat, more: nat, size: nat)
    requires
        size > 0,
    ensures
        0 <= whole_part(len, size) <= len,
        whole_part(len, size) % size as int == 0,
        0 <= whole_part((len - whole_part(len, size) + more) as nat, size),
        whole_part(len, size) + whole_part((len - whole_part(len, size) + more) as nat, size)
            == whole_part(len + more, size),
        whole_part(len + more, size) <= len + more,
{
    let s = size as int;
    let a = len as int;
    let w = (len + more) as int;
    let cut = whole_part(len, size);
    vstd::arithmetic::div_mod::lemma_fundamental_div_mod(a, s);
    vstd::arithmetic::div_mod::lemma_fundamental_div_mod(w, s);
    assert(cut == s * (a / s)) by (nonlinear_arith)
        requires
            cut == (a / s) * s,
    ;
    assert(0 <= s * (a / s)) by (nonlinear_arith)
        requires
            s > 0,
            a >= 0,
    ;
    vstd::arithmetic::div_mod::lemma_mod_multiples_basic(a / s, s);
    assert((w - cut) / s == w / s - a / s) by (nonlinear_arith)
        requires
            s > 0,
            cut == s * (a / s),
    ;
    assert((w / s - a / s) * s == (w / s) * s - cut) by (nonlinear_arith)
        requires
            cut == s * (a / s),
    ;
    assert((w / s) * s <= w && (w / s) * s >= cut) by (nonlinear_arith)
        requires
            w == s * (w / s) + w % s,
            0 <= w % s,
            cut == s * (a / s),
            a <= w,
            s > 0,
    ;
}

/// Samples come out in windows as soon as there are enough of them, however they arrive:
/// what is pending after two calls is what is pending after one call with the samples of
/// both.
pub proof fn pending_does_not_depend_on_pieces<T>(
    pending: Seq<T>,
    first: Seq<T>,
    second: Seq<T>,
    size: nat,
)
    requires
        size > 0,
    ensures
        ({
            let stream = pending + first;
            let between = stream.skip(whole_part(stream.len(), size));
            let later = between + second;
            let whole = pending + (first + second);
            later.skip(whole_part(later.len(), size)) == whole.skip(whole_part(whole.len(), size))
        }),
{
    let stream = pending + first;
    let cut = whole_part(stream.len(), size);
    let later = stream.skip(cut) + second;
    let whole = pending + (first + second);
    whole_parts_add_up(stream.len(), second.len(), size);
    assert(later.len() == stream.len() - cut + second.len());
    assert(whole.len() == stream.len() + second.len());
    assert(later.skip(whole_part(later.len(), size)) =~= whole.skip(
        whole_part(whole.len(), size),
    ));
}

/// The windows that come out do not depend on how the samples arrive: those of two calls,
/// one behind the other, are those of one call with the samples of both, and the same half
/// window was taken in last.
pub proof fn windows_do_not_depend_on_pieces<T>(
    previous: Seq<T>,
    pending: Seq<T>,
    first: Seq<T>,
    second: Seq<T>,
    half: nat,
)
    requires
        half > 0,
        previous.len() == half,
    ensures
        ({
            let size = 2 * half;
            let stream = pending + first;
            let cut = whole_part(stream.len(), size);
            let later = stream.skip(cut) + second;
            let later_cut = whole_part(later.len(), size);
            let whole = pending + (first + second);
            let whole_cut = whole_part(whole.len(), size);
            let between = last_half(previous + stream.take(cut), half);
            &&& overlapped(previous + stream.take(cut), half) + overlapped(
                between + later.take(later_cut),
                half,
            ) == overlapped(previous + whole.take(whole_cut), half)
            &&& last_half(between + later.take(later_cut), half) == last_half(
                previous + whole.take(whole_cut),
                half,
            )
        }),
{
    let size = 2 * half;
    let stream = pending + first;
    let cut = whole_part(stream.len(), size);
    let later = stream.skip(cut) + second;
    let later_cut = whole_part(later.len(), size);
    let whole = pending + (first + second);
    let whole_cut = whole_part(whole.len(), size);
    whole_parts_add_up(stream.len(), second.len(), size);
    assert(later.len() == stream.len() - cut + second.len());
    assert(whole.len() == stream.len() + second.len());
    assert(whole.take(whole_cut) =~= stream.take(cut) + later.take(later_cut));
    expanding_in_pieces(previous, stream.take(cut), later.take(later_cut), half);
}

} // verus!
