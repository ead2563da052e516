use vstd::arithmetic::div_mod::lemma_fundamental_div_mod;
use vstd::arithmetic::div_mod::lemma_fundamental_div_mod_converse;
use vstd::prelude::*;

verus! {

/// Every chunk of `size` items with its items moved `by` places to the front, and
/// those at the front moved behind the others.
pub open spec fn rotated<T>(data: Seq<T>, size: nat, by: nat) -> Seq<T> {
    Seq::new(
        data.len(),
        |i: int|
            data[(i / (size as int)) * size + (i % (size as int) + by) % (size as int)],
    )
}

/// Rotates every chunk of `size` items by `by` places to the front.
fn rotate_chunks<T: Copy>(data: &Vec<T>, size: usize, by: usize) -> (output: Vec<T>)
    requires
        size > 0,
        by <= size,
        data@.len() as int % size as int == 0,
    ensures
        output@ == rotated(data@, size as nat, by as nat),
{
    let mut output: Vec<T> = Vec::new();
    let mut start: usize = 0;
    let mut offset: usize = 0;
    let ghost mut chunk: int = 0;
    while start < data.len()
        invariant
            size > 0,
            by <= size,
            data@.len() as int % size as int == 0,
            start <= data@.len(),
            offset < size,
            start == chunk * size,
            0 <= chunk,
            start == data@.len() ==> offset == 0,
            output@.len() == start + offset,
            output@ == rotated(data@, size as nat, by as nat).take(output@.len() as int),
        decreases data.len() - start, size - offset,
    {
        proof {
            let n = data@.len() as int / size as int;
            lemma_fundamental_div_mod(data@.len() as int, size as int);
            assert(start + size <= data@.len()) by (nonlinear_arith)
                requires
                    size > 0,
                    start == chunk * size,
                    data@.len() == size * n,
                    start < data@.len(),
            ;
            lemma_fundamental_div_mod_converse(
                start + offset,
                size as int,
                chunk,
                offset as int,
            );
            let turn = if offset < size - by {
                0int
            } else {
                1
            };
            lemma_fundamental_div_mod_converse(
                offset + by,
                size as int,
                turn,
                offset + by - turn * size,
            );
            assert((chunk + 1) * size == chunk * size + size) by (nonlinear_arith);
        }
        let source: usize = if offset < size - by {
            offset + by
        } else {
            offset - (size - by)
        };
        output.push(data[start + source]);
        if offset + 1 == size {
            start = start + size;
            offset = 0;
            proof {
                chunk = chunk + 1;
            }
        } else {
            offset = offset + 1;
        }
    }
    assert(rotated(data@, size as nat, by as nat).take(data@.len() as int) =~= rotated(
        data@,
        size as nat,
        by as nat,
    ));
    output
}

/// How the bins of a forward Fourier transform are arranged.
#[derive(Clone, Copy)]
pub struct Fft {
    fft_size: usize,
}

impl Fft {
    /// The number of bins.
    pub closed spec fn bins(&self) -> nat {
        self.fft_size as nat
    }

    pub fn new(fft_size: usize) -> (fft: Self)
        ensures
            fft.bins() == fft_size,
    {
        Fft { fft_size }
    }

    /// The bin of frequency zero.
    pub fn dc_bin(&self) -> (bin: usize)
        requires
            self.bins() < usize::MAX,
        ensures
            bin == (self.bins() + 1) / 2,
    {
        (self.fft_size + 1) / 2
    }

    pub fn size(&self) -> (size: usize)
        ensures
            size == self.bins(),
    {
        self.fft_size
    }

    /// Brings the bins of each transform in `data` from the order in which a transform
    /// gives them, negative frequencies last, into the order of their frequencies.
    pub fn center_bins<T: Copy>(&self, data: &mut Vec<T>)
        requires
            self.bins() > 0,
            old(data)@.len() as int % self.bins() as int == 0,
        ensures
            final(data)@ == rotated(old(data)@, self.bins(), self.bins() / 2),
            centered(old(data)@, self.bins(), final(data)@),
    {
        *data = rotate_chunks(data, self.fft_size, self.fft_size / 2);
    }
}

/// How the bins of an inverse Fourier transform are arranged.
#[derive(Clone, Copy)]
pub struct Ifft {
    fft_size: usize,
}

impl Ifft {
    /// The number of bins.
    pub closed spec fn bins(&self) -> nat {
        self.fft_size as nat
    }

    pub fn new(fft_size: usize) -> (ifft: Self)
        ensures
            ifft.bins() == fft_size,
    {
        Ifft { fft_size }
    }

    /// The bin of frequency zero.
    pub fn dc_bin(&self) -> (bin: usize)
        requires
            self.bins() < usize::MAX,
        ensures
            bin == (self.bins() + 1) / 2,
    {
        (self.fft_size + 1) / 2
    }

    pub fn size(&self) -> (size: usize)
        ensures
            size == self.bins(),
    {
        self.fft_size
    }

    /// Brings the bins of each transform in `data` from the order of their frequencies
    /// into the order in which an inverse transform takes them.
    pub fn uncenter_bins<T: Copy>(&self, data: &mut Vec<T>)
        requires
            self.bins() > 0,
            old(data)@.len() as int % self.bins() as int == 0,
        ensures
            final(data)@ == rotated(
                old(data)@,
                self.bins(),
                (self.bins() - self.bins() / 2) as nat,
            ),
            uncentered(old(data)@, self.bins(), final(data)@),
    {
        *data = rotate_chunks(data, self.fft_size, self.fft_size - self.fft_size / 2);
    }
}

/// An inverse transform takes the bins in the order in which a forward transform of
/// the same size gave them: what one arranges, the other puts back.
pub proof fn uncentering_undoes_centering<T>(data: Seq<T>, size: nat)
    requires
        size > 0,
        data.len() as int % size as int == 0,
    ensures
        rotated(rotated(data, size, size / 2), size, (size - size / 2) as nat) == data,
{
    let s = size as int;
    let by = s / 2;
    let back = s - by;
    let once = rotated(data, size, size / 2);
    let twice = rotated(once, size, (size - size / 2) as nat);
    let n = data.len() as int / s;
    lemma_fundamental_div_mod(data.len() as int, s);
    assert forall|i: int| 0 <= i < data.len() implies twice[i] == data[i] by {
        let c = i / s;
        let o = i % s;
        lemma_fundamental_div_mod(i, s);
        let turn = if o < s - back {
            0int
        } else {
            1
        };
        let mid = o + back - turn * s;
        lemma_fundamental_div_mod_converse(o + back, s, turn, mid);
        assert(c < n) by (nonlinear_arith)
            requires
                i == s * c + o,
                0 <= o,
                i < data.len(),
                data.len() == s * n,
                s > 0,
        ;
        assert(0 <= c * s && c * s + s <= data.len()) by (nonlinear_arith)
            requires
                0 <= c < n,
                data.len() == s * n,
                s > 0,
        ;
        assert(c * s == s * c) by (nonlinear_arith);
        lemma_fundamental_div_mod_converse(c * s + mid, s, c, mid);
        assert(twice[i] == once[c * s + mid]);
        let turn2 = if mid < s - by {
            0int
        } else {
            1
        };
        lemma_fundamental_div_mod_converse(mid + by, s, turn2, mid + by - turn2 * s);
    }
    assert(twice =~= data);
}

/// Whether bins were brought into the order of their frequencies.
pub open spec fn centered<T>(before: Seq<T>, size: nat, after: Seq<T>) -> bool {
    after == rotated(before, size, size / 2)
}

/// Whether bins were brought from the order of their frequencies into the order of a transform.
pub open spec fn uncentered<T>(before: Seq<T>, size: nat, after: Seq<T>) -> bool {
    after == rotated(before, size, (size - size / 2) as nat)
}

/// In the order of a transform the bin of frequency zero comes first, then those of the positive
/// frequencies and then those of the negative ones. In the order of the frequencies the bin of
/// frequency zero stands in the middle. So it is in each of the spectra that stand one behind the
/// other, and what is put into one order and back is as it was.
pub proof fn frequency_zero_is_in_the_middle<T>(
    data: Seq<T>,
    size: nat,
    ordered: Seq<T>,
    back: Seq<T>,
    spectrum: int,
    bin: int,
)
    requires
        size > 0,
        data.len() as int % size as int == 0,
        0 <= spectrum < data.len() as int / size as int,
        centered(data, size, ordered),
        uncentered(ordered, size, back),
    ensures
        back == data,
        0 <= bin && (size + 1) / 2 + bin < size ==> ordered[spectrum * size + (size + 1) / 2 + bin]
            == data[spectrum * size + bin],
        0 < bin <= (size + 1) / 2 && bin < size ==> ordered[spectrum * size + (size + 1) / 2 - bin]
            == data[spectrum * size + size - bin],
{
    uncentering_undoes_centering(data, size);
    let s = size as int;
    let len = data.len() as int;
    let dc = (s + 1) / 2;
    assert(spectrum * s + s <= len && spectrum * s >= 0) by (nonlinear_arith)
        requires
            s > 0,
            len % s == 0,
            0 <= spectrum < len / s,
    ;
    if 0 <= bin && dc + bin < s {
        let i = spectrum * s + dc + bin;
        vstd::arithmetic::div_mod::lemma_fundamental_div_mod_converse(i, s, spectrum, dc + bin);
        assert((dc + bin + s / 2) % s == bin) by {
            assert(dc + bin + s / 2 == s + bin);
            vstd::arithmetic::div_mod::lemma_fundamental_div_mod_converse(s + bin, s, 1, bin);
        }
        assert(ordered[i] == data[i / s * s + (i % s + s / 2) % s]);
    }
    if 0 < bin <= dc && bin < s {
        let i = spectrum * s + dc - bin;
        vstd::arithmetic::div_mod::lemma_fundamental_div_mod_converse(i, s, spectrum, dc - bin);
        assert((dc - bin + s / 2) % s == s - bin) by {
            assert(dc - bin + s / 2 == s - bin);
            vstd::arithmetic::div_mod::lemma_small_mod((s - bin) as nat, size);
        }
        assert(ordered[i] == data[i / s * s + (i % s + s / 2) % s]);
    }
}

} // verus!
