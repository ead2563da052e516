use vstd::arithmetic::div_mod::lemma_fundamental_div_mod;
use vstd::arithmetic::div_mod::lemma_fundamental_div_mod_converse;
use vstd::prelude::*;

use crate::indexed::clones_exactly;

verus! {

/// Whether each item of `b` is that of `a` in the same place, or a clone of it.
pub open spec fn all_cloned<T: Clone>(a: Seq<T>, b: Seq<T>) -> bool {
    &&& a.len() == b.len()
    &&& forall|i: int| 0 <= i < a.len() ==> #[trigger] cloned(a[i], b[i])
}

/// Chunk number `k` of a stream that is cut into chunks of `size`.
pub open spec fn chunk_at<T>(stream: Seq<T>, size: nat, k: int) -> Seq<T> {
    stream.subrange(k * size, k * size + size)
}

/// How many whole chunks of `size` a stream of `len` items holds. Nothing can be cut
/// into chunks of no items.
pub open spec fn whole_chunks(len: nat, size: nat) -> nat {
    if size == 0 {
        0
    } else {
        len / size
    }
}

/// What is left of a stream behind its whole chunks of `size`.
pub open spec fn leftover<T>(stream: Seq<T>, size: nat) -> Seq<T> {
    stream.skip((whole_chunks(stream.len(), size) * size) as int)
}

/// The contents of some chunks.
pub open spec fn contents<T>(chunks: Seq<Vec<T>>) -> Seq<Seq<T>> {
    chunks.map_values(|chunk: Vec<T>| chunk@)
}

/// The whole chunks of `size` that a stream is cut into.
pub open spec fn all_chunks<T>(stream: Seq<T>, size: nat) -> Seq<Seq<T>> {
    Seq::new(whole_chunks(stream.len(), size), |k: int| chunk_at(stream, size, k))
}

/// Whether a stream, whose items may be cloned, was cut into chunks of `size`, with `rest`
/// left over.
pub open spec fn cut_into<T: Clone>(
    stream: Seq<T>,
    size: nat,
    chunks: Seq<Seq<T>>,
    rest: Seq<T>,
) -> bool {
    &&& chunks.len() == all_chunks(stream, size).len()
    &&& forall|k: int|
        0 <= k < chunks.len() ==> all_cloned(chunk_at(stream, size, k), #[trigger] chunks[k])
    &&& all_cloned(leftover(stream, size), rest)
}

/// Cuts a stream into chunks of one size, whatever the sizes of the pieces in which
/// the stream arrives.
pub struct Rechunker<T> {
    chunk_size: usize,
    buffer: Vec<T>,
}

impl<T> Rechunker<T> {
    /// The size of the chunks that come out.
    pub closed spec fn size(&self) -> nat {
        self.chunk_size as nat
    }

    /// What arrived since the last chunk that came out.
    pub closed spec fn pending(&self) -> Seq<T> {
        self.buffer@
    }

    /// Less than one chunk is pending.
    pub open spec fn wf(&self) -> bool {
        self.size() > 0 ==> self.pending().len() < self.size()
    }

    pub fn new(chunk_size: usize) -> (rechunker: Self)
        ensures
            rechunker.wf(),
            rechunker.size() == chunk_size,
            rechunker.pending() == Seq::<T>::empty(),
    {
        Rechunker { chunk_size, buffer: Vec::new() }
    }

    pub fn chunk_size(&self) -> (size: usize)
        ensures
            size == self.size(),
    {
        self.chunk_size
    }

    /// Takes in a piece of the stream and returns the chunks that it completes.
    pub fn process(&mut self, data: &[T]) -> (chunks: Vec<Vec<T>>)
        where
            T: Clone,
        requires
            old(self).wf(),
            data@.len() > 0 ==> old(self).size() > 0,
        ensures
            final(self).wf(),
            final(self).size() == old(self).size(),
            cut_into(
                old(self).pending() + data@,
                old(self).size(),
                contents(chunks@),
                final(self).pending(),
            ),
    {
        let ghost stream = self.buffer@ + data@;
        let ghost before = self.buffer@.len();
        let size: usize = self.chunk_size;
        let mut chunks: Vec<Vec<T>> = Vec::new();
        let mut taken: usize = 0;
        proof {
            assert(stream.subrange(0, before as int) =~= self.buffer@);
            assert(chunks@.len() * size == 0) by (nonlinear_arith)
                requires
                    chunks@.len() == 0,
            ;
        }
        while taken < data.len()
            invariant
                size == self.chunk_size == old(self).chunk_size,
                data@.len() > 0 ==> size > 0,
                size > 0 ==> self.buffer@.len() < size,
                taken <= data@.len(),
                stream == old(self).buffer@ + data@,
                before == old(self).buffer@.len(),
                size == 0 ==> chunks@.len() == 0,
                chunks@.len() * size + self.buffer@.len() == before + taken,
                forall|k: int|
                    0 <= k < chunks@.len() ==> all_cloned(
                        chunk_at(stream, size as nat, k),
                        (#[trigger] chunks@[k])@,
                    ),
                all_cloned(
                    stream.subrange(chunks@.len() * size, before + taken),
                    self.buffer@,
                ),
            decreases data.len() - taken,
        {
            let space: usize = size - self.buffer.len();
            let count: usize = if data.len() - taken < space {
                data.len() - taken
            } else {
                space
            };
            let ghost filled = self.buffer@;
            let ghost first = chunks@.len() * size;
            self.buffer.extend_from_slice(&data[taken..taken + count]);
            proof {
                let piece = stream.subrange(first, before + taken + count);
                assert forall|i: int| 0 <= i < piece.len() implies #[trigger] cloned(
                    piece[i],
                    self.buffer@[i],
                ) by {
                    if i < filled.len() {
                        assert(cloned(
                            stream.subrange(first, before + taken)[i],
                            filled[i],
                        ));
                    }
                }
            }
            taken = taken + count;
            if self.buffer.len() == size {
                let mut full: Vec<T> = Vec::new();
                std::mem::swap(&mut full, &mut self.buffer);
                proof {
                    let done = chunks@.len() as int;
                    assert((done + 1) * size == done * size + size) by (nonlinear_arith);
                    assert(chunk_at(stream, size as nat, done) =~= stream.subrange(
                        first,
                        before + taken,
                    ));
                }
                chunks.push(full);
            }
        }
        proof {
            if size > 0 {
                lemma_fundamental_div_mod_converse(
                    stream.len() as int,
                    size as int,
                    chunks@.len() as int,
                    self.buffer@.len() as int,
                );
            }
            assert(leftover(stream, size as nat) =~= stream.subrange(
                chunks@.len() * size,
                stream.len() as int,
            ));
        }
        chunks
    }

    /// As [`Rechunker::process`], for items that are handed over.
    ///
    /// Where chunks have no items, none ever comes out and the items gather.
    pub fn process_iter(&mut self, data: Vec<T>) -> (chunks: Vec<Vec<T>>)
        requires
            old(self).wf(),
        ensures
            final(self).wf(),
            final(self).size() == old(self).size(),
            contents(chunks@) == all_chunks(old(self).pending() + data@, old(self).size()),
            final(self).pending() == leftover(old(self).pending() + data@, old(self).size()),
    {
        let ghost stream = self.buffer@ + data@;
        let ghost before = self.buffer@.len();
        let size: usize = self.chunk_size;
        let mut chunks: Vec<Vec<T>> = Vec::new();
        proof {
            assert(stream.subrange(0, before as int) =~= self.buffer@);
            assert(chunks@.len() * size == 0) by (nonlinear_arith)
                requires
                    chunks@.len() == 0,
            ;
        }
        for sample in iter: data
            invariant
                size == self.chunk_size == old(self).chunk_size,
                size > 0 ==> self.buffer@.len() < size,
                iter.seq() == data@,
                stream == old(self).buffer@ + data@,
                before == old(self).buffer@.len(),
                size == 0 ==> chunks@.len() == 0,
                chunks@.len() * size + self.buffer@.len() == before + iter.index(),
                forall|k: int|
                    0 <= k < chunks@.len() ==> (#[trigger] chunks@[k])@ == chunk_at(
                        stream,
                        size as nat,
                        k,
                    ),
                self.buffer@ == stream.subrange(chunks@.len() * size, before + iter.index()),
        {
            let ghost first = chunks@.len() * size;
            let ghost arrived = before + iter.index();
            self.buffer.push(sample);
            proof {
                assert(self.buffer@ =~= stream.subrange(first, arrived + 1));
            }
            if self.buffer.len() == size {
                let mut full: Vec<T> = Vec::new();
                std::mem::swap(&mut full, &mut self.buffer);
                proof {
                    let done = chunks@.len() as int;
                    assert((done + 1) * size == done * size + size) by (nonlinear_arith);
                    assert(chunk_at(stream, size as nat, done) =~= stream.subrange(
                        first,
                        arrived + 1,
                    ));
                    assert(stream.subrange(first + size, arrived + 1) =~= Seq::<T>::empty());
                }
                chunks.push(full);
            }
        }
        proof {
            if size > 0 {
                lemma_fundamental_div_mod_converse(
                    stream.len() as int,
                    size as int,
                    chunks@.len() as int,
                    self.buffer@.len() as int,
                );
            }
            assert(leftover(stream, size as nat) =~= self.buffer@);
            assert(contents(chunks@) =~= all_chunks(stream, size as nat));
        }
        chunks
    }
}

impl<T: Clone> Clone for Rechunker<T> {
    /// Another stream, of which as much has arrived.
    fn clone(&self) -> (rechunker: Self)
        ensures
            rechunker.size() == self.size(),
            all_cloned(self.pending(), rechunker.pending()),
    {
        Rechunker { chunk_size: self.chunk_size, buffer: self.buffer.clone() }
    }
}

/// It does not matter whether items are lent or handed over, where clones are exact: the
/// same chunks come out, and the same is pending, so that the same comes out of what
/// arrives later.
pub proof fn lent_or_handed_over<T: Clone>(
    stream: Seq<T>,
    size: nat,
    chunks: Seq<Seq<T>>,
    rest: Seq<T>,
)
    requires
        clones_exactly::<T>(),
        cut_into(stream, size, chunks, rest),
    ensures
        chunks == all_chunks(stream, size),
        rest == leftover(stream, size),
{
    assert forall|k: int| 0 <= k < chunks.len() implies chunks[k] == all_chunks(
        stream,
        size,
    )[k] by {
        exact_clones(chunk_at(stream, size, k), chunks[k]);
    }
    assert(chunks =~= all_chunks(stream, size));
    exact_clones(leftover(stream, size), rest);
}

/// Where clones are exact, what was cloned is unchanged.
pub proof fn exact_clones<T: Clone>(a: Seq<T>, b: Seq<T>)
    requires
        clones_exactly::<T>(),
        all_cloned(a, b),
    ensures
        a == b,
{
    assert forall|i: int| 0 <= i < a.len() implies a[i] == b[i] by {
        assert(cloned(a[i], b[i]));
    }
    assert(a =~= b);
}

/// The chunks that have come out so far, followed by what is left over, are the
/// stream: nothing is lost, repeated or reordered.
pub proof fn chunks_then_leftover_are_the_stream<T>(stream: Seq<T>, size: nat, i: int)
    requires
        0 <= i < stream.len(),
    ensures
        ({
            let chunks = whole_chunks(stream.len(), size);
            if i < chunks * size {
                &&& i / (size as int) < chunks
                &&& stream[i] == chunk_at(stream, size, i / (size as int))[i % (size as int)]
            } else {
                stream[i] == leftover(stream, size)[i - chunks * size]
            }
        }),
{
    let chunks = whole_chunks(stream.len(), size);
    if i < chunks * size {
        assert(size > 0) by (nonlinear_arith)
            requires
                i < chunks * size,
                0 <= i,
        ;
        let s = size as int;
        lemma_fundamental_div_mod(i, s);
        let q = i / s;
        let r = i % s;
        assert(q < chunks) by (nonlinear_arith)
            requires
                i == s * q + r,
                0 <= r < s,
                i < chunks * s,
        ;
        assert(q * s == s * q) by (nonlinear_arith);
        lemma_fundamental_div_mod(stream.len() as int, s);
        assert(q * s + s <= chunks * s) by (nonlinear_arith)
            requires
                q + 1 <= chunks,
                s > 0,
        ;
        assert(chunks * s <= stream.len()) by (nonlinear_arith)
            requires
                stream.len() == s * chunks + stream.len() as int % s,
                0 <= stream.len() as int % s,
        ;
    }
}

/// Taking in a stream in two pieces gives the same chunks, and leaves the same
/// leftover, as taking it in as one.
pub proof fn pieces_do_not_matter<T>(first: Seq<T>, second: Seq<T>, size: nat)
    ensures
        ({
            let whole = first + second;
            let rest = leftover(first, size) + second;
            let n = whole_chunks(first.len(), size);
            let m = whole_chunks(rest.len(), size);
            &&& whole_chunks(whole.len(), size) == n + m
            &&& forall|k: int|
                0 <= k < n ==> #[trigger] chunk_at(whole, size, k) == chunk_at(first, size, k)
            &&& forall|k: int|
                0 <= k < m ==> #[trigger] chunk_at(rest, size, k) == chunk_at(whole, size, n + k)
            &&& leftover(whole, size) == leftover(rest, size)
        }),
{
    let whole = first + second;
    let rest = leftover(first, size) + second;
    let n = whole_chunks(first.len(), size);
    let m = whole_chunks(rest.len(), size);
    if size == 0 {
        assert(rest =~= whole);
    } else {
        let s = size as int;
        lemma_fundamental_div_mod(first.len() as int, s);
        assert(n * s == s * n) by (nonlinear_arith);
        assert(rest.len() == first.len() - n * s + second.len());
        lemma_fundamental_div_mod(rest.len() as int, s);
        let r = rest.len() as int % s;
        assert(whole.len() == (n + m) * s + r) by (nonlinear_arith)
            requires
                rest.len() == s * m + r,
                rest.len() == whole.len() - n * s,
        ;
        lemma_fundamental_div_mod_converse(whole.len() as int, s, (n + m) as int, r);
        assert forall|k: int| 0 <= k < n implies #[trigger] chunk_at(whole, size, k) == chunk_at(
            first,
            size,
            k,
        ) by {
            assert(k * s + s <= n * s && 0 <= k * s) by (nonlinear_arith)
                requires
                    0 <= k < n,
                    s > 0,
            ;
            assert(chunk_at(whole, size, k) =~= chunk_at(first, size, k));
        }
        assert forall|k: int| 0 <= k < m implies #[trigger] chunk_at(rest, size, k) == chunk_at(
            whole,
            size,
            n + k,
        ) by {
            assert((n + k) * s == n * s + k * s) by (nonlinear_arith);
            assert(k * s + s <= m * s && 0 <= k * s) by (nonlinear_arith)
                requires
                    0 <= k < m,
                    s > 0,
            ;
            assert(m * s == s * m) by (nonlinear_arith);
            assert(chunk_at(rest, size, k) =~= chunk_at(whole, size, n + k));
        }
        assert((n + m) * s == n * s + m * s) by (nonlinear_arith);
        assert(m * s == s * m) by (nonlinear_arith);
        assert(leftover(whole, size) =~= leftover(rest, size));
    }
}

} // verus!
