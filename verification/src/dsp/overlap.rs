use std::ops::Add;

use vstd::arithmetic::div_mod::lemma_fundamental_div_mod;
use vstd::arithmetic::div_mod::lemma_fundamental_div_mod_converse;
use vstd::prelude::*;
use vstd::std_specs::ops::AddSpec;

use crate::dsp::rechunk::{all_cloned, exact_clones};
use crate::indexed::clones_exactly;

verus! {

/// Where in a stream item `i` of its overlapped form comes from: window number `w`
/// holds the `2 * half` items from `w * half` on.
pub open spec fn window_source(i: int, half: int) -> int {
    (i / (2 * half)) * half + i % (2 * half)
}

/// The windows of `2 * half` items of a stream, each one starting `half` items after
/// the one before it.
pub open spec fn overlapped<T>(stream: Seq<T>, half: nat) -> Seq<T> {
    Seq::new(
        (2 * (stream.len() - half)) as nat,
        |i: int| stream[window_source(i, half as int)],
    )
}

/// The last `half` items of a stream.
pub open spec fn last_half<T>(stream: Seq<T>, half: nat) -> Seq<T> {
    stream.skip(stream.len() - half)
}

/// Whether `output` are the windows that `input` completes where half a chunk came before
/// it, and `last` is the half chunk that then came last. Items may be cloned.
pub open spec fn expands<T: Clone>(
    previous: Seq<T>,
    input: Seq<T>,
    half: nat,
    output: Seq<T>,
    last: Seq<T>,
) -> bool {
    &&& all_cloned(overlapped(previous + input, half), output)
    &&& all_cloned(last_half(previous + input, half), last)
}

/// Which item of a stream of halves is the first of the two that make up sum `i`.
pub open spec fn sum_source(i: int, half: int) -> int {
    (i / half) * (2 * half) + i % half
}

/// Whether `sum` is what `a` and `b`, or clones of them, add up to.
pub open spec fn summed<T: Clone + Add<Output = T>>(a: T, b: T, sum: T) -> bool {
    exists|x: T, y: T|
        #[trigger] cloned(a, x) && #[trigger] cloned(b, y) && (T::obeys_add_spec() ==> sum
            == x.add_spec(y))
}

/// Whether `a` and `b`, and clones of them, can be added.
pub open spec fn can_add<T: Clone + Add<Output = T>>(a: T, b: T) -> bool {
    forall|x: T, y: T| #[trigger] cloned(a, x) && #[trigger] cloned(b, y) ==> x.add_req(y)
}

/// Item `pos + r` of a stream is what the windows from `2 * pos` on are filled with.
proof fn window_sources(pos: int, half: int, r: int)
    requires
        half > 0,
        pos >= 0,
        pos % (2 * half) == 0,
        0 <= r < 4 * half,
    ensures
        window_source(2 * pos + r, half) == if r < 2 * half {
            pos + r
        } else {
            pos + r - half
        },
{
    let k = pos / (2 * half);
    lemma_fundamental_div_mod(pos, 2 * half);
    let w = if r < 2 * half {
        2 * k
    } else {
        2 * k + 1
    };
    let rest = if r < 2 * half {
        r
    } else {
        r - 2 * half
    };
    assert(2 * pos + r == w * (2 * half) + rest) by (nonlinear_arith)
        requires
            pos == (2 * half) * k,
            r < 2 * half ==> w == 2 * k && rest == r,
            r >= 2 * half ==> w == 2 * k + 1 && rest == r - 2 * half,
    ;
    lemma_fundamental_div_mod_converse(2 * pos + r, 2 * half, w, rest);
    assert(w * half + rest == if r < 2 * half {
        pos + r
    } else {
        pos + r - half
    }) by (nonlinear_arith)
        requires
            pos == (2 * half) * k,
            r < 2 * half ==> w == 2 * k && rest == r,
            r >= 2 * half ==> w == 2 * k + 1 && rest == r - 2 * half,
    ;
}

/// Turns a stream of chunks into one of chunks that overlap by half.
pub struct OverlapExpand<T> {
    chunk_size: usize,
    prev_half_chunk: Vec<T>,
}

impl<T> OverlapExpand<T> {
    /// Half the size of a chunk.
    pub closed spec fn half(&self) -> nat {
        (self.chunk_size / 2) as nat
    }

    /// The last half chunk that was taken in.
    pub closed spec fn previous(&self) -> Seq<T> {
        self.prev_half_chunk@
    }

    pub closed spec fn wf(&self) -> bool {
        &&& self.chunk_size % 2 == 0
        &&& self.prev_half_chunk@.len() == self.chunk_size / 2
    }

    /// Starts a stream, as if half a chunk of default values had come before it.
    pub fn new(chunk_size: usize) -> (expand: Self)
        where
            T: Clone + Default,
        requires
            chunk_size % 2 == 0,
        ensures
            expand.wf(),
            expand.half() == chunk_size / 2,
            expand.previous().len() == expand.half(),
            exists|d: T|
                #[trigger] call_ensures(T::default, (), d) && forall|i: int|
                    0 <= i < expand.half() ==> cloned(d, #[trigger] expand.previous()[i]),
    {
        let d = T::default();
        let half: usize = chunk_size / 2;
        let mut prev_half_chunk: Vec<T> = Vec::new();
        while prev_half_chunk.len() < half
            invariant
                prev_half_chunk.len() <= half,
                forall|i: int|
                    0 <= i < prev_half_chunk@.len() ==> cloned(d, #[trigger] prev_half_chunk@[i]),
            decreases half - prev_half_chunk.len(),
        {
            prev_half_chunk.push(d.clone());
        }
        OverlapExpand { chunk_size, prev_half_chunk }
    }

    /// Takes in some chunks. For each of them two come out: one that starts half a
    /// chunk earlier, and the chunk itself.
    pub fn process(&mut self, input: &[T]) -> (output: Vec<T>)
        where
            T: Clone,
        requires
            old(self).wf(),
            input@.len() > 0 ==> old(self).half() > 0 && input@.len() as int % (2 * old(self).half()) as int == 0,
        ensures
            final(self).wf(),
            final(self).half() == old(self).half(),
            expands(
                old(self).previous(),
                input@,
                old(self).half(),
                output@,
                final(self).previous(),
            ),
    {
        let mut output: Vec<T> = Vec::new();
        let half: usize = self.chunk_size / 2;
        let ghost stream = self.prev_half_chunk@ + input@;
        if input.len() == 0 {
            assert(last_half(stream, half as nat) =~= self.prev_half_chunk@);
            return output;
        }
        let size: usize = self.chunk_size;
        let mut pos: usize = 0;
        while pos < input.len()
            invariant
                half == size / 2,
                size % 2 == 0,
                half > 0,
                input@.len() as int % size as int == 0,
                self.prev_half_chunk@.len() == half,
                self.chunk_size == size,
                stream == self.prev_half_chunk@ + input@,
                pos <= input@.len(),
                pos as int % size as int == 0,
                output@.len() == 2 * pos,
                forall|i: int|
                    0 <= i < output@.len() ==> cloned(
                        stream[window_source(i, half as int)],
                        #[trigger] output@[i],
                    ),
            decreases input.len() - pos,
        {
            proof {
                lemma_fundamental_div_mod(input@.len() as int, size as int);
                lemma_fundamental_div_mod(pos as int, size as int);
                let (q, k, s) = (input@.len() as int / size as int, pos as int / size as int, size as int);
                assert(pos + s <= input@.len()) by (nonlinear_arith)
                    requires
                        s > 0,
                        input@.len() == s * q,
                        pos == s * k,
                        pos < input@.len(),
                ;
                assert(pos == 0 || pos >= s) by (nonlinear_arith)
                    requires
                        s > 0,
                        pos == s * k,
                        pos >= 0,
                ;
                assert(pos + s == s * (k + 1) + 0) by (nonlinear_arith)
                    requires
                        pos == s * k,
                ;
                lemma_fundamental_div_mod_converse(pos + s, s, k + 1, 0);
            }
            let ghost done = output@;
            if pos == 0 {
                output.extend_from_slice(&self.prev_half_chunk);
            } else {
                output.extend_from_slice(&input[pos - half..pos]);
            }
            let ghost with_first = output@;
            output.extend_from_slice(&input[pos..pos + half]);
            let ghost with_second = output@;
            output.extend_from_slice(&input[pos..pos + size]);
            proof {
                assert forall|i: int| 0 <= i < output@.len() implies cloned(
                    stream[window_source(i, half as int)],
                    #[trigger] output@[i],
                ) by {
                    if i < done.len() {
                        assert(output@[i] == done[i]);
                    } else {
                        window_sources(pos as int, half as int, i - 2 * pos);
                        if i < with_first.len() {
                            assert(output@[i] == with_first[i]);
                        } else if i < with_second.len() {
                            assert(output@[i] == with_second[i]);
                        }
                    }
                }
            }
            pos = pos + size;
        }
        proof {
            lemma_fundamental_div_mod(input@.len() as int, size as int);
            let (q, s) = (input@.len() as int / size as int, size as int);
            assert(s <= input@.len()) by (nonlinear_arith)
                requires
                    s > 0,
                    input@.len() == s * q,
                    0 < input@.len(),
            ;
        }
        let mut last: Vec<T> = Vec::new();
        last.extend_from_slice(&input[input.len() - half..input.len()]);
        self.prev_half_chunk = last;
        output
    }
}

/// Turns a stream of chunks that overlap by half back into one of chunks, by adding
/// up what overlaps.
pub struct OverlapReduce<T> {
    half_chunk_size: usize,
    buffer: Vec<T>,
    start: bool,
}

impl<T> OverlapReduce<T> {
    /// Half the size of a chunk.
    pub closed spec fn half(&self) -> nat {
        self.half_chunk_size as nat
    }

    /// Whether nothing was taken in yet.
    pub closed spec fn at_start(&self) -> bool {
        self.start
    }

    /// The half chunk whose other half is still to come.
    pub closed spec fn held(&self) -> Seq<T> {
        self.buffer@
    }

    pub open spec fn wf(&self) -> bool {
        if self.at_start() {
            self.held().len() == 0
        } else {
            self.half() > 0 && self.held().len() == self.half()
        }
    }

    /// The halves that are added up, two by two, when `input` comes in. The very first
    /// half has no counterpart and is dropped.
    pub open spec fn halves(&self, input: Seq<T>) -> Seq<T> {
        if self.at_start() {
            input.skip(self.half() as int)
        } else {
            self.held() + input
        }
    }

    pub fn new(half_chunk_size: usize) -> (reduce: Self)
        ensures
            reduce.wf(),
            reduce.half() == half_chunk_size,
            reduce.at_start(),
    {
        OverlapReduce { half_chunk_size, buffer: Vec::new(), start: true }
    }

    /// Takes in some chunks. The first half of each is added to the half held back of
    /// the chunk before it, and the second half is held back.
    pub fn process(&mut self, input: &[T]) -> (output: Vec<T>)
        where
            T: Clone + Add<Output = T>,
        requires
            old(self).wf(),
            input@.len() > 0 ==> {
                let halves = old(self).halves(input@);
                let half = old(self).half() as int;
                &&& half > 0
                &&& input@.len() as int % (2 * half) == 0
                &&& forall|i: int|
                    0 <= i < (halves.len() - half) / 2 ==> can_add(
                        halves[#[trigger] sum_source(i, half)],
                        halves[sum_source(i, half) + half],
                    )
            },
        ensures
            final(self).wf(),
            reduces(*old(self), input@, output@, *final(self)),
    {
        let mut output: Vec<T> = Vec::new();
        if input.len() == 0 {
            return output;
        }
        let half: usize = self.half_chunk_size;
        let ghost halves = self.halves(input@);
        // How far `halves` is ahead of `input`.
        let ghost ahead: int = if self.start {
            -half
        } else {
            half as int
        };
        let ghost n: int = input@.len() as int / (2 * half);
        let ghost mut pairs: int = 0;
        proof {
            lemma_fundamental_div_mod(input@.len() as int, 2 * half as int);
            assert(2 * half <= input@.len()) by (nonlinear_arith)
                requires
                    half > 0,
                    input@.len() == (2 * half) * n,
                    0 < input@.len(),
            ;
            assert(pairs * half == 0) by (nonlinear_arith)
                requires
                    pairs == 0,
            ;
        }
        let mut pos: usize = 0;
        if self.start {
            // The first half has no valid overlap.
            self.buffer.extend_from_slice(&input[half..2 * half]);
            self.start = false;
            pos = 2 * half;
        }
        while pos < input.len()
            invariant
                half > 0,
                self.half_chunk_size == half,
                !self.start,
                halves == old(self).halves(input@),
                old(self).wf(),
                old(self).half() == half,
                ahead == if old(self).start {
                    -half
                } else {
                    half as int
                },
                input@.len() == (2 * half) * n,
                halves.len() == input@.len() + ahead,
                pos <= input@.len(),
                0 <= pairs,
                output@.len() == pairs * half,
                pos + ahead == 2 * (pairs * half) + half,
                forall|i: int|
                    0 <= i < (halves.len() - half) / 2 ==> can_add(
                        halves[#[trigger] sum_source(i, half as int)],
                        halves[sum_source(i, half as int) + half],
                    ),
                forall|i: int|
                    0 <= i < output@.len() ==> summed(
                        halves[sum_source(i, half as int)],
                        halves[sum_source(i, half as int) + half],
                        #[trigger] output@[i],
                    ),
                all_cloned(halves.subrange(pos + ahead - half, pos + ahead), self.buffer@),
            decreases input.len() - pos,
        {
            let ghost t: int = pos + ahead;
            let ghost done = output@;
            proof {
                let k = if ahead == half {
                    pairs
                } else {
                    pairs + 1
                };
                assert(pos == (2 * half) * k) by (nonlinear_arith)
                    requires
                        pos + ahead == 2 * (pairs * half) + half,
                        ahead == half ==> k == pairs,
                        ahead != half ==> ahead == -half && k == pairs + 1,
                ;
                assert(pos + 2 * half <= input@.len()) by (nonlinear_arith)
                    requires
                        half > 0,
                        pos == (2 * half) * k,
                        input@.len() == (2 * half) * n,
                        pos < input@.len(),
                ;
            }
            let mut held: Vec<T> = Vec::new();
            std::mem::swap(&mut held, &mut self.buffer);
            let mut place: usize = pos;
            for a in iter: held
                invariant
                    iter.seq() == held@,
                    held@.len() == half,
                    half > 0,
                    place == pos + iter.index(),
                    pos + 2 * half <= input@.len(),
                    halves == old(self).halves(input@),
                    old(self).wf(),
                    old(self).half() == half,
                    ahead == if old(self).start {
                        -half
                    } else {
                        half as int
                    },
                    halves.len() == input@.len() + ahead,
                    t == pos + ahead,
                    t == 2 * (pairs * half) + half,
                    0 <= pairs,
                    done.len() == pairs * half,
                    output@.len() == done.len() + iter.index(),
                    all_cloned(halves.subrange(t - half, t), held@),
                    forall|i: int|
                        0 <= i < (halves.len() - half) / 2 ==> can_add(
                            halves[#[trigger] sum_source(i, half as int)],
                            halves[sum_source(i, half as int) + half],
                        ),
                    forall|i: int|
                        0 <= i < output@.len() ==> summed(
                            halves[sum_source(i, half as int)],
                            halves[sum_source(i, half as int) + half],
                            #[trigger] output@[i],
                        ),
            {
                let b = input[place].clone();
                proof {
                    let j = iter.index() as int;
                    let i = done.len() + j;
                    sum_sources(pairs, half as int, j);
                    assert(sum_source(i, half as int) == t - half + j);
                    assert(halves.subrange(t - half, t)[j] == halves[t - half + j]);
                    assert(cloned(halves[t - half + j], a));
                    assert(halves[t + j] == input@[place as int]);
                    assert(cloned(halves[t + j], b));
                    assert(can_add(
                        halves[sum_source(i, half as int)],
                        halves[sum_source(i, half as int) + half],
                    ));
                }
                let sum = a + b;
                output.push(sum);
                assert(summed(
                    halves[t - half + iter.index() as int],
                    halves[t + iter.index() as int],
                    sum,
                ));
                place = place + 1;
            }
            self.buffer.extend_from_slice(&input[place..place + half]);
            proof {
                pairs = pairs + 1;
                assert(pairs * half == (pairs - 1) * half + half) by (nonlinear_arith);
                assert forall|i: int| 0 <= i < half implies #[trigger] cloned(
                    halves.subrange(t + half, t + 2 * half)[i],
                    self.buffer@[i],
                ) by {}
            }
            pos = place + half;
        }
        output
    }
}

/// Whether `output` is what comes out of a stream of halves where `input` comes in, after
/// which it is as in `after`. Items may be cloned.
pub open spec fn reduces<T: Clone + Add<Output = T>>(
    before: OverlapReduce<T>,
    input: Seq<T>,
    output: Seq<T>,
    after: OverlapReduce<T>,
) -> bool {
    let halves = before.halves(input);
    let half = before.half() as int;
    &&& after.half() == before.half()
    &&& input.len() == 0 ==> output.len() == 0 && after == before
    &&& input.len() > 0 ==> {
        &&& !after.at_start()
        &&& output.len() == (halves.len() - half) / 2
        &&& forall|i: int|
            0 <= i < output.len() ==> summed(
                halves[sum_source(i, half)],
                halves[sum_source(i, half) + half],
                #[trigger] output[i],
            )
        &&& all_cloned(last_half(halves, half as nat), after.held())
    }
}

impl<T: Clone> Clone for OverlapExpand<T> {
    /// Another stream, of which as much has come.
    fn clone(&self) -> (expand: Self)
        ensures
            expand.half() == self.half(),
            all_cloned(self.previous(), expand.previous()),
            self.wf() ==> expand.wf(),
    {
        OverlapExpand {
            chunk_size: self.chunk_size,
            prev_half_chunk: self.prev_half_chunk.clone(),
        }
    }
}

impl<T: Clone> Clone for OverlapReduce<T> {
    /// Another stream, of which as much has come.
    fn clone(&self) -> (reduce: Self)
        ensures
            reduce.half() == self.half(),
            reduce.at_start() == self.at_start(),
            all_cloned(self.held(), reduce.held()),
    {
        OverlapReduce {
            half_chunk_size: self.half_chunk_size,
            buffer: self.buffer.clone(),
            start: self.start,
        }
    }
}

/// The items that make up sum `pairs * half + j`.
proof fn sum_sources(pairs: int, half: int, j: int)
    requires
        half > 0,
        pairs >= 0,
        0 <= j < half,
    ensures
        sum_source(pairs * half + j, half) == 2 * (pairs * half) + j,
{
    lemma_fundamental_div_mod_converse(pairs * half + j, half, pairs, j);
    assert(pairs * (2 * half) == 2 * (pairs * half)) by (nonlinear_arith);
}

/// The windows behind whole chunks are those of what comes behind these chunks.
proof fn window_source_shifts(pos: int, half: int, r: int)
    requires
        half > 0,
        pos >= 0,
        pos % (2 * half) == 0,
        r >= 0,
    ensures
        window_source(2 * pos + r, half) == pos + window_source(r, half),
        2 * window_source(r, half) == r + r % (2 * half),
        0 <= r % (2 * half) < 2 * half,
{
    let d = 2 * half;
    let k = pos / d;
    let w = r / d;
    let rest = r % d;
    lemma_fundamental_div_mod(pos, d);
    lemma_fundamental_div_mod(r, d);
    assert(2 * pos + r == (2 * k + w) * d + rest) by (nonlinear_arith)
        requires
            pos == d * k,
            r == d * w + rest,
    ;
    lemma_fundamental_div_mod_converse(2 * pos + r, d, 2 * k + w, rest);
    assert((2 * k + w) * half + rest == pos + w * half + rest) by (nonlinear_arith)
        requires
            pos == (2 * half) * k,
    ;
    assert(2 * (w * half + rest) == r + rest) by (nonlinear_arith)
        requires
            r == (2 * half) * w + rest,
    ;
}

/// Expanding a stream in two pieces gives what expanding it as one gives.
pub proof fn expanding_in_pieces<T>(previous: Seq<T>, first: Seq<T>, second: Seq<T>, half: nat)
    requires
        half > 0,
        previous.len() == half,
        first.len() as int % (2 * half) as int == 0,
    ensures
        ({
            let between = last_half(previous + first, half);
            &&& overlapped(previous + (first + second), half) == overlapped(previous + first, half)
                + overlapped(between + second, half)
            &&& last_half(previous + (first + second), half) == last_half(between + second, half)
        }),
{
    let between = last_half(previous + first, half);
    let whole = overlapped(previous + (first + second), half);
    let parts = overlapped(previous + first, half) + overlapped(between + second, half);
    let h = half as int;
    assert(whole.len() == parts.len());
    assert forall|i: int| 0 <= i < whole.len() implies whole[i] == parts[i] by {
        let pos = first.len() as int;
        if i < 2 * pos {
            window_source_shifts(pos, h, i);
        } else {
            let r = i - 2 * pos;
            window_source_shifts(pos, h, r);
            let place = window_source(r, h);
            if place < h {
                assert((previous + (first + second))[pos + place] == (previous + first)[pos + place]);
                assert(between[place] == (previous + first)[pos + place]);
            }
        }
    }
    assert(whole =~= parts);
    assert(last_half(previous + (first + second), half) =~= last_half(between + second, half));
}

/// Adding up a stream of halves in two pieces gives the sums, of the same items, that
/// adding it up as one gives.
pub proof fn reducing_in_pieces<T>(first: Seq<T>, second: Seq<T>, half: nat, pairs: nat)
    requires
        half > 0,
        first.len() == 2 * (pairs * half) + half,
    ensures
        ({
            let h = half as int;
            let whole = first + second;
            let rest = last_half(first, half) + second;
            let sums = pairs * half;
            &&& (first.len() - h) / 2 == sums
            &&& (whole.len() - h) / 2 == sums + (rest.len() - h) / 2
            &&& forall|i: int|
                0 <= i < sums ==> {
                    let source = #[trigger] sum_source(i, h);
                    &&& 0 <= source && source + h < first.len()
                    &&& whole[source] == first[source]
                    &&& whole[source + h] == first[source + h]
                }
            &&& forall|i: int|
                0 <= i ==> #[trigger] sum_source(sums + i, h) == 2 * sums + sum_source(i, h)
            &&& forall|i: int|
                0 <= i < rest.len() ==> whole[2 * sums + i] == #[trigger] rest[i]
            &&& last_half(whole, half) == last_half(rest, half)
        }),
{
    let h = half as int;
    let whole = first + second;
    let rest = last_half(first, half) + second;
    let sums = pairs * half;
    assert(whole.len() - h == 2 * sums + second.len());
    assert(rest.len() - h == second.len());
    assert forall|i: int| 0 <= i < sums implies {
        let source = #[trigger] sum_source(i, h);
        0 <= source && source + h < first.len()
    } by {
        let q = i / h;
        let r = i % h;
        lemma_fundamental_div_mod(i, h);
        assert(q + 1 <= pairs) by (nonlinear_arith)
            requires
                i == h * q + r,
                0 <= r < h,
                i < pairs * h,
        ;
        assert(0 <= q * (2 * h) && q * (2 * h) + 2 * h <= 2 * (pairs * h)) by (nonlinear_arith)
            requires
                0 <= q,
                q + 1 <= pairs,
                h > 0,
        ;
    }
    assert forall|i: int| 0 <= i implies #[trigger] sum_source(sums + i, h) == 2 * sums + sum_source(
        i,
        h,
    ) by {
        let q = i / h;
        let r = i % h;
        lemma_fundamental_div_mod(i, h);
        assert(sums + i == (pairs + q) * h + r) by (nonlinear_arith)
            requires
                sums == pairs * h,
                i == h * q + r,
        ;
        lemma_fundamental_div_mod_converse(sums + i, h, pairs + q, r);
        assert((pairs + q) * (2 * h) == 2 * sums + q * (2 * h)) by (nonlinear_arith)
            requires
                sums == pairs * h,
        ;
    }
    assert(last_half(whole, half) =~= last_half(rest, half));
}

/// Reducing what expanding gave adds every item of the stream to itself, but for the
/// last half chunk, which is held back.
pub proof fn reduce_doubles_what_was_expanded<T>(previous: Seq<T>, stream: Seq<T>, half: nat)
    requires
        half > 0,
        previous.len() == half,
        stream.len() > 0,
        stream.len() as int % (2 * half) as int == 0,
    ensures
        ({
            let h = half as int;
            let halves = overlapped(previous + stream, half).skip(h);
            &&& (halves.len() - h) / 2 == stream.len() - h
            &&& forall|i: int|
                0 <= i < stream.len() - h ==> {
                    &&& halves[#[trigger] sum_source(i, h)] == stream[i]
                    &&& halves[sum_source(i, h) + h] == stream[i]
                }
            &&& last_half(halves, half) == last_half(stream, half)
        }),
{
    let h = half as int;
    let all = overlapped(previous + stream, half);
    let halves = all.skip(h);
    let n = stream.len() as int / (2 * h);
    lemma_fundamental_div_mod(stream.len() as int, 2 * h);
    assert(2 * h <= stream.len()) by (nonlinear_arith)
        requires
            h > 0,
            stream.len() == (2 * h) * n,
            0 < stream.len(),
    ;
    assert forall|i: int| 0 <= i < stream.len() - h implies {
        &&& halves[#[trigger] sum_source(i, h)] == stream[i]
        &&& halves[sum_source(i, h) + h] == stream[i]
    } by {
        let p = i / h;
        let j = i % h;
        lemma_fundamental_div_mod(i, h);
        let source = sum_source(i, h);
        assert(source == 2 * (p * h) + j) by (nonlinear_arith)
            requires
                source == p * (2 * h) + j,
        ;
        assert(i == p * h + j) by (nonlinear_arith)
            requires
                i == h * p + j,
        ;
        assert(0 <= p * h) by (nonlinear_arith)
            requires
                0 <= p,
                h > 0,
        ;
        assert(source + h == p * (2 * h) + (h + j)) by (nonlinear_arith)
            requires
                source == 2 * (p * h) + j,
        ;
        lemma_fundamental_div_mod_converse(source + h, 2 * h, p, h + j);
        assert(window_source(source + h, h) == h + i);
        assert(source + 2 * h == (p + 1) * (2 * h) + j) by (nonlinear_arith)
            requires
                source == 2 * (p * h) + j,
        ;
        lemma_fundamental_div_mod_converse(source + 2 * h, 2 * h, p + 1, j);
        assert((p + 1) * h == p * h + h) by (nonlinear_arith);
        assert(window_source(source + 2 * h, h) == h + i);
        assert(source + 2 * h < all.len());
    }
    assert forall|j: int| 0 <= j < h implies last_half(halves, half)[j] == last_half(stream, half)[j] by {
        let i = all.len() - h + j;
        let last_chunk = stream.len() - 2 * h;
        assert(last_chunk == (n - 1) * (2 * h) + 0) by (nonlinear_arith)
            requires
                stream.len() == (2 * h) * n,
                last_chunk == stream.len() - 2 * h,
        ;
        lemma_fundamental_div_mod_converse(last_chunk, 2 * h, n - 1, 0);
        window_sources(last_chunk, h, 3 * h + j);
        assert(i == 2 * last_chunk + (3 * h + j));
    }
    assert(last_half(halves, half) =~= last_half(stream, half));
}

/// Taking in chunks in two calls gives what one call gives, where clones are exact: the
/// windows of the two calls, one behind the other, are those of the one, and the same half
/// chunk came last.
pub proof fn expanding_in_two_calls<T: Clone>(
    previous: Seq<T>,
    first: Seq<T>,
    second: Seq<T>,
    half: nat,
    first_output: Seq<T>,
    between: Seq<T>,
    second_output: Seq<T>,
    last: Seq<T>,
    whole_output: Seq<T>,
    whole_last: Seq<T>,
)
    requires
        clones_exactly::<T>(),
        half > 0,
        previous.len() == half,
        first.len() as int % (2 * half) as int == 0,
        expands(previous, first, half, first_output, between),
        expands(between, second, half, second_output, last),
        expands(previous, first + second, half, whole_output, whole_last),
    ensures
        first_output + second_output == whole_output,
        last == whole_last,
{
    exact_clones(overlapped(previous + first, half), first_output);
    exact_clones(last_half(previous + first, half), between);
    exact_clones(overlapped(between + second, half), second_output);
    exact_clones(last_half(between + second, half), last);
    exact_clones(overlapped(previous + (first + second), half), whole_output);
    exact_clones(last_half(previous + (first + second), half), whole_last);
    expanding_in_pieces(previous, first, second, half);
}

/// Where clones are exact, a sum is that of the two items.
proof fn exact_sum<T: Clone + Add<Output = T>>(a: T, b: T, sum: T)
    requires
        clones_exactly::<T>(),
        T::obeys_add_spec(),
        summed(a, b, sum),
    ensures
        sum == a.add_spec(b),
{
    let (x, y) = choose|x: T, y: T|
        #[trigger] cloned(a, x) && #[trigger] cloned(b, y) && (T::obeys_add_spec() ==> sum
            == x.add_spec(y));
    assert(a == x && b == y);
}

/// Adding up in two calls gives what one call gives, where clones are exact and a sum
/// depends on nothing but what is added: the sums of the two calls, one behind the other,
/// are those of the one, and the same half chunk is held back. So the very first half is
/// dropped once, not in every call.
pub proof fn reducing_in_two_calls<T: Clone + Add<Output = T>>(
    before: OverlapReduce<T>,
    first: Seq<T>,
    second: Seq<T>,
    first_output: Seq<T>,
    between: OverlapReduce<T>,
    second_output: Seq<T>,
    after: OverlapReduce<T>,
    whole_output: Seq<T>,
    whole_after: OverlapReduce<T>,
)
    requires
        clones_exactly::<T>(),
        T::obeys_add_spec(),
        before.wf(),
        before.half() > 0,
        first.len() as int % (2 * before.half()) as int == 0,
        second.len() as int % (2 * before.half()) as int == 0,
        reduces(before, first, first_output, between),
        reduces(between, second, second_output, after),
        reduces(before, first + second, whole_output, whole_after),
    ensures
        first_output + second_output == whole_output,
        after.at_start() == whole_after.at_start(),
        after.at_start() || after.held() == whole_after.held(),
{
    let half = before.half();
    let h = half as int;
    if first.len() == 0 {
        assert(first + second =~= second);
        same_sums(before, second, second_output, after, whole_output, whole_after);
        assert(first_output + second_output =~= whole_output);
    } else if second.len() == 0 {
        assert(first + second =~= first);
        same_sums(before, first, first_output, between, whole_output, whole_after);
        assert(first_output + second_output =~= whole_output);
    } else {
        let halves = before.halves(first);
        let n = first.len() as int / (2 * h);
        lemma_fundamental_div_mod(first.len() as int, 2 * h);
        let pairs = if before.at_start() {
            n - 1
        } else {
            n
        };
        assert(n >= 1 && first.len() == 2 * (n * h)) by (nonlinear_arith)
            requires
                h > 0,
                first.len() == (2 * h) * n,
                first.len() > 0,
        ;
        assert((n - 1) * h == n * h - h) by (nonlinear_arith);
        assert(halves.len() == 2 * (pairs * h) + h);
        reducing_in_pieces(halves, second, half, pairs as nat);
        exact_clones(last_half(halves, half), between.held());
        let rest = between.halves(second);
        let whole = before.halves(first + second);
        assert(rest =~= last_half(halves, half) + second);
        assert(whole =~= halves + second);
        exact_clones(last_half(rest, half), after.held());
        exact_clones(last_half(whole, half), whole_after.held());
        let both = first_output + second_output;
        assert(both.len() == whole_output.len());
        assert forall|i: int| 0 <= i < both.len() implies both[i] == whole_output[i] by {
            let sums = pairs * h;
            let source = sum_source(i, h);
            exact_sum(whole[source], whole[source + h], whole_output[i]);
            if i < sums {
                exact_sum(halves[source], halves[source + h], first_output[i]);
            } else {
                let j = i - sums;
                let place = sum_source(j, h);
                assert(sum_source(sums + j, h) == 2 * sums + place);
                sum_source_is_within(j, h, second.len() as int);
                assert(whole[2 * sums + place] == rest[place]);
                assert(whole[2 * sums + (place + h)] == rest[place + h]);
                exact_sum(rest[place], rest[place + h], second_output[j]);
            }
        }
        assert(both =~= whole_output);
    }
}

/// The items that make up a sum are among the halves that there are.
proof fn sum_source_is_within(i: int, half: int, len: int)
    requires
        half > 0,
        0 <= i < len / 2,
        len % (2 * half) == 0,
    ensures
        0 <= sum_source(i, half),
        sum_source(i, half) + half < len + half,
{
    let q = i / half;
    let r = i % half;
    let n = len / (2 * half);
    lemma_fundamental_div_mod(i, half);
    lemma_fundamental_div_mod(len, 2 * half);
    assert(len / 2 == n * half) by (nonlinear_arith)
        requires
            len == (2 * half) * n,
    ;
    assert(0 <= q && q + 1 <= n) by (nonlinear_arith)
        requires
            i == half * q + r,
            0 <= r < half,
            0 <= i < n * half,
            half > 0,
    ;
    assert(0 <= q * (2 * half) && q * (2 * half) + 2 * half <= len) by (nonlinear_arith)
        requires
            0 <= q,
            q + 1 <= n,
            half > 0,
            len == (2 * half) * n,
    ;
}

/// Where clones are exact and a sum depends on nothing but what is added, only one thing
/// can come out.
proof fn same_sums<T: Clone + Add<Output = T>>(
    before: OverlapReduce<T>,
    input: Seq<T>,
    output: Seq<T>,
    after: OverlapReduce<T>,
    other_output: Seq<T>,
    other_after: OverlapReduce<T>,
)
    requires
        clones_exactly::<T>(),
        T::obeys_add_spec(),
        reduces(before, input, output, after),
        reduces(before, input, other_output, other_after),
    ensures
        output == other_output,
        after.at_start() == other_after.at_start(),
        after.held() == other_after.held(),
{
    if input.len() > 0 {
        let halves = before.halves(input);
        let h = before.half() as int;
        exact_clones(last_half(halves, before.half()), after.held());
        exact_clones(last_half(halves, before.half()), other_after.held());
        assert forall|i: int| 0 <= i < output.len() implies output[i] == other_output[i] by {
            let source = sum_source(i, h);
            exact_sum(halves[source], halves[source + h], output[i]);
            exact_sum(halves[source], halves[source + h], other_output[i]);
        }
    }
    assert(output =~= other_output);
}

/// Adding up what was overlapped gives every item twice, where clones are exact and a sum
/// depends on nothing but what is added; only the last half chunk is held back.
pub proof fn reducing_what_was_expanded<T: Clone + Add<Output = T>>(
    previous: Seq<T>,
    stream: Seq<T>,
    half: nat,
    windows: Seq<T>,
    last: Seq<T>,
    before: OverlapReduce<T>,
    output: Seq<T>,
    after: OverlapReduce<T>,
)
    requires
        clones_exactly::<T>(),
        T::obeys_add_spec(),
        half > 0,
        previous.len() == half,
        stream.len() > 0,
        stream.len() as int % (2 * half) as int == 0,
        expands(previous, stream, half, windows, last),
        before.half() == half,
        before.at_start(),
        reduces(before, windows, output, after),
    ensures
        output.len() == stream.len() - half,
        forall|i: int|
            0 <= i < output.len() ==> #[trigger] output[i] == stream[i].add_spec(stream[i]),
        after.held() == last_half(stream, half),
{
    let h = half as int;
    exact_clones(overlapped(previous + stream, half), windows);
    reduce_doubles_what_was_expanded(previous, stream, half);
    let halves = before.halves(windows);
    assert(windows.len() > 0);
    assert(halves =~= overlapped(previous + stream, half).skip(h));
    exact_clones(last_half(halves, half), after.held());
    assert forall|i: int| 0 <= i < output.len() implies #[trigger] output[i]
        == stream[i].add_spec(stream[i]) by {
        let source = sum_source(i, h);
        exact_sum(halves[source], halves[source + h], output[i]);
    }
}

} // verus!
