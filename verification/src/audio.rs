//! Playing audio: filling what the audio device asks for from the buffers that were
//! handed over, and keeping track of what was played.

use std::collections::VecDeque;

use vstd::prelude::*;

verus! {

/// The bits of a sample of silence.
pub const SILENCE: u32 = 0;

#[derive(Clone, Copy, Debug, PartialEq, Eq, Structural)]
pub enum AudioError {
    Overrun,
    Underrun,
}

/// What is known of the audio after more was handed over.
#[derive(Clone, Copy, Debug, PartialEq, Eq, Structural)]
pub struct FeedResult {
    pub last_played_seq_num: Option<usize>,
    pub underrun: bool,
}

/// A piece of audio: samples, by the bits of floating point numbers.
pub struct AudioBuffer {
    pub seq_num: usize,
    pub data: Vec<u32>,
}

/// What a piece of audio holds.
pub struct BufferModel {
    pub seq_num: usize,
    pub data: Seq<u32>,
}

impl AudioBuffer {
    pub open spec fn model(self) -> BufferModel {
        BufferModel { seq_num: self.seq_num, data: self.data@ }
    }

    /// An empty piece with room for `len` samples.
    pub fn new(len: usize) -> (buffer: AudioBuffer)
        ensures
            buffer.seq_num == 0,
            buffer.data@ == Seq::<u32>::empty(),
    {
        AudioBuffer { seq_num: 0, data: Vec::with_capacity(len) }
    }
}

/// What pieces of audio hold.
pub open spec fn models(queue: Seq<AudioBuffer>) -> Seq<BufferModel> {
    queue.map_values(|buffer: AudioBuffer| buffer.model())
}

/// What is told of the audio that is played.
#[derive(Clone, Copy, Debug, PartialEq, Eq, Structural)]
pub enum AudioResponse {
    /// Playing a piece has begun.
    Played(usize),
    /// There was nothing to play.
    Underrun,
}

/// What is handed to the audio device, what is told of it, and what is left.
pub struct Filling {
    pub out: Seq<u32>,
    pub responses: Seq<AudioResponse>,
    pub in_data: Seq<u32>,
    pub queue: Seq<BufferModel>,
    pub underrun: bool,
}

/// That many samples of silence.
pub open spec fn silence(len: nat) -> Seq<u32> {
    Seq::new(len, |k: int| SILENCE)
}

/// Fills `len` samples: from what is left of the piece that is played, then piece by piece
/// from those that wait, and with silence once there are no more.
pub open spec fn filled(
    in_data: Seq<u32>,
    queue: Seq<BufferModel>,
    underrun: bool,
    len: nat,
) -> Filling
    decreases queue.len(),
{
    if len <= in_data.len() {
        Filling {
            out: in_data.take(len as int),
            responses: Seq::empty(),
            in_data: in_data.skip(len as int),
            queue,
            underrun,
        }
    } else if queue.len() == 0 {
        Filling {
            out: in_data + silence((len - in_data.len()) as nat),
            responses: if underrun {
                Seq::empty()
            } else {
                seq![AudioResponse::Underrun]
            },
            in_data: Seq::empty(),
            queue,
            underrun: true,
        }
    } else {
        let rest = filled(
            queue[0].data,
            queue.drop_first(),
            false,
            (len - in_data.len()) as nat,
        );
        Filling {
            out: in_data + rest.out,
            responses: seq![AudioResponse::Played(queue[0].seq_num)] + rest.responses,
            ..rest
        }
    }
}

/// What is handed to the audio device, and what is told of it.
pub struct Filled {
    pub out: Vec<u32>,
    pub responses: Vec<AudioResponse>,
}

/// The audio that is played.
pub struct AudioFill {
    /// Whether it was told already that there is nothing to play. This is so at the
    /// start, so that nothing is told before the first piece arrives.
    pub underrun: bool,
    pub in_data: Vec<u32>,
    pub queue: VecDeque<AudioBuffer>,
}

impl AudioFill {
    /// Nothing is played yet.
    pub fn new() -> (fill: Self)
        ensures
            fill.underrun,
            fill.in_data@ == Seq::<u32>::empty(),
            fill.queue@ == Seq::<AudioBuffer>::empty(),
    {
        AudioFill { underrun: true, in_data: Vec::new(), queue: VecDeque::new() }
    }

    /// Adds a piece to those that wait.
    pub fn push(&mut self, buffer: AudioBuffer)
        ensures
            final(self).queue@ == old(self).queue@.push(buffer),
            final(self).in_data == old(self).in_data,
            final(self).underrun == old(self).underrun,
    {
        self.queue.push_back(buffer);
    }

    /// The next `len` samples.
    pub fn fill(&mut self, len: usize) -> (result: Filled)
        ensures
            ({
                let filling = filled(
                    old(self).in_data@,
                    models(old(self).queue@),
                    old(self).underrun,
                    len as nat,
                );
                &&& result.out@ == filling.out
                &&& result.responses@ == filling.responses
                &&& final(self).in_data@ == filling.in_data
                &&& models(final(self).queue@) == filling.queue
                &&& final(self).underrun == filling.underrun
            }),
    {
        let mut out: Vec<u32> = Vec::new();
        let mut responses: Vec<AudioResponse> = Vec::new();
        let ghost whole = filled(
            self.in_data@,
            models(self.queue@),
            self.underrun,
            len as nat,
        );
        let ghost rest = whole;
        assert(out@ + rest.out =~= whole.out);
        assert(responses@ + rest.responses =~= whole.responses);
        loop
            invariant_except_break
                out@.len() <= len,
                rest == filled(
                    self.in_data@,
                    models(self.queue@),
                    self.underrun,
                    (len - out@.len()) as nat,
                ),
                out@ + rest.out == whole.out,
                responses@ + rest.responses == whole.responses,
                rest.in_data == whole.in_data,
                rest.queue == whole.queue,
                rest.underrun == whole.underrun,
            ensures
                out@ == whole.out,
                responses@ == whole.responses,
                self.in_data@ == whole.in_data,
                models(self.queue@) == whole.queue,
                self.underrun == whole.underrun,
            decreases self.queue@.len(),
        {
            let ghost in_before = self.in_data@;
            let ghost out_before = out@;
            let ghost queue_before = models(self.queue@);
            let wanted: usize = len - out.len();
            let available: usize = self.in_data.len();
            if wanted <= available {
                let left: Vec<u32> = self.in_data.split_off(wanted);
                out.append(&mut self.in_data);
                self.in_data = left;
                assert(out@ =~= out_before + in_before.take(wanted as int));
                assert(self.in_data@ =~= in_before.skip(wanted as int));
                assert(responses@ =~= whole.responses);
                break;
            }
            out.append(&mut self.in_data);
            assert(out@ =~= out_before + in_before);
            match self.queue.pop_front() {
                Some(buffer) => {
                    let ghost next = filled(
                        queue_before[0].data,
                        queue_before.drop_first(),
                        false,
                        (len - out@.len()) as nat,
                    );
                    responses.push(AudioResponse::Played(buffer.seq_num));
                    self.underrun = false;
                    let ghost data = buffer.data@;
                    self.in_data = buffer.data;
                    proof {
                        assert(models(self.queue@) =~= queue_before.drop_first());
                        assert(queue_before[0].data == data);
                        assert(out@ + next.out =~= out_before + rest.out);
                        assert(responses@ + next.responses =~= whole.responses);
                        rest = next;
                    }
                },
                None => {
                    let missing: usize = len - out.len();
                    let ghost so_far = out@;
                    let mut k: usize = 0;
                    while k < missing
                        invariant
                            k <= missing,
                            out@ == so_far + silence(k as nat),
                        decreases missing - k,
                    {
                        out.push(SILENCE);
                        assert(out@ =~= so_far + silence(k as nat + 1));
                        k = k + 1;
                    }
                    if !self.underrun {
                        responses.push(AudioResponse::Underrun);
                        self.underrun = true;
                    }
                    proof {
                        assert(out@ =~= whole.out);
                        assert(responses@ =~= whole.responses);
                        assert(self.in_data@ =~= Seq::<u32>::empty());
                        assert(models(self.queue@) =~= queue_before);
                    }
                    break;
                },
            }
        }
        Filled { out, responses }
    }
}

/// All samples that wait, in order.
pub open spec fn waiting(in_data: Seq<u32>, queue: Seq<BufferModel>) -> Seq<u32>
    decreases queue.len(),
{
    if queue.len() == 0 {
        in_data
    } else {
        in_data + waiting(queue[0].data, queue.drop_first())
    }
}

/// No sample is lost, repeated or played out of order: what is handed to the audio device
/// and what is left make up what was there, but for silence, which only follows once
/// nothing is left.
pub proof fn nothing_is_lost(
    in_data: Seq<u32>,
    queue: Seq<BufferModel>,
    underrun: bool,
    len: nat,
)
    ensures
        ({
            let filling = filled(in_data, queue, underrun, len);
            let all = waiting(in_data, queue);
            let left = waiting(filling.in_data, filling.queue);
            &&& filling.out.len() == len
            &&& all.len() >= len ==> filling.out + left == all
            &&& all.len() < len ==> filling.out == all + silence((len - all.len()) as nat)
                && left.len() == 0
        }),
    decreases queue.len(),
{
    let filling = filled(in_data, queue, underrun, len);
    let all = waiting(in_data, queue);
    let left = waiting(filling.in_data, filling.queue);
    if len <= in_data.len() {
        if queue.len() > 0 {
            assert(filling.out + left =~= all);
        } else {
            assert(filling.out + left =~= all);
        }
    } else if queue.len() > 0 {
        let more = (len - in_data.len()) as nat;
        nothing_is_lost(queue[0].data, queue.drop_first(), false, more);
        let rest = filled(queue[0].data, queue.drop_first(), false, more);
        let later = waiting(queue[0].data, queue.drop_first());
        if all.len() >= len {
            assert(filling.out + left =~= in_data + (rest.out + left));
        } else {
            assert(filling.out =~= all + silence((len - all.len()) as nat));
        }
    }
}

/// That there is nothing to play is told once, until something was played again.
pub proof fn underruns_are_told_once(in_data: Seq<u32>, queue: Seq<BufferModel>, len: nat)
    requires
        queue.len() == 0,
    ensures
        filled(in_data, queue, true, len).responses.len() == 0,
{
}

/// The number of the piece that was played last, after what was told.
pub open spec fn last_played(before: Option<usize>, responses: Seq<AudioResponse>) -> Option<usize>
    decreases responses.len(),
{
    if responses.len() == 0 {
        before
    } else {
        match responses.last() {
            AudioResponse::Played(seq_num) => Some(seq_num),
            AudioResponse::Underrun => last_played(before, responses.drop_last()),
        }
    }
}

/// What is known of the audio that was handed over.
#[derive(Clone, Copy, Debug, PartialEq, Eq, Structural)]
pub struct AudioProgress {
    pub last_played_seq_num: Option<usize>,
}

impl AudioProgress {
    /// Takes up what was told since the last time.
    pub fn update(&mut self, responses: &Vec<AudioResponse>) -> (result: FeedResult)
        ensures
            result == (FeedResult {
                last_played_seq_num: last_played(old(self).last_played_seq_num, responses@),
                underrun: responses@.contains(AudioResponse::Underrun),
            }),
            final(self).last_played_seq_num == result.last_played_seq_num,
    {
        let mut underrun: bool = false;
        let mut i: usize = 0;
        assert(responses@.take(0) =~= Seq::<AudioResponse>::empty());
        while i < responses.len()
            invariant
                i <= responses@.len(),
                self.last_played_seq_num == last_played(
                    old(self).last_played_seq_num,
                    responses@.take(i as int),
                ),
                underrun == exists|k: int|
                    0 <= k < i && #[trigger] responses@[k] == AudioResponse::Underrun,
            decreases responses@.len() - i,
        {
            proof {
                assert(responses@.take(i as int + 1).drop_last() =~= responses@.take(i as int));
                assert(responses@.take(i as int + 1).last() == responses@[i as int]);
            }
            match responses[i] {
                AudioResponse::Played(seq_num) => {
                    self.last_played_seq_num = Some(seq_num);
                },
                AudioResponse::Underrun => {
                    underrun = true;
                },
            }
            i = i + 1;
        }
        assert(responses@.take(i as int) =~= responses@);
        FeedResult { last_played_seq_num: self.last_played_seq_num, underrun }
    }
}

/// What is told of filling: that each piece that was begun is played, in order, and after that,
/// where all that waited was not enough, that there was nothing to play, unless that was told and
/// nothing was played since. The pieces that were not begun still wait.
pub proof fn what_is_told_of_filling(
    in_data: Seq<u32>,
    queue: Seq<BufferModel>,
    underrun: bool,
    len: nat,
)
    ensures
        ({
            let filling = filled(in_data, queue, underrun, len);
            let begun = queue.len() - filling.queue.len();
            let ran_out = waiting(in_data, queue).len() < len;
            let tells = ran_out && (begun > 0 || !underrun);
            &&& 0 <= begun <= queue.len()
            &&& filling.queue == queue.skip(begun)
            &&& filling.responses.len() == begun + if tells {
                1int
            } else {
                0
            }
            &&& forall|k: int|
                0 <= k < begun ==> #[trigger] filling.responses[k] == AudioResponse::Played(
                    queue[k].seq_num,
                )
            &&& tells ==> filling.responses.last() == AudioResponse::Underrun
            &&& filling.underrun == if ran_out {
                true
            } else if begun > 0 {
                false
            } else {
                underrun
            }
            &&& begun > 0 ==> in_data.len() < len
        }),
    decreases queue.len(),
{
    let filling = filled(in_data, queue, underrun, len);
    if len <= in_data.len() {
        assert(queue.skip(0) =~= queue);
        waiting_holds_what_is_played(in_data, queue);
    } else if queue.len() == 0 {
        assert(queue.skip(0) =~= queue);
    } else {
        let more = (len - in_data.len()) as nat;
        let later = queue.drop_first();
        what_is_told_of_filling(queue[0].data, later, false, more);
        let rest = filled(queue[0].data, later, false, more);
        let begun = queue.len() - filling.queue.len();
        assert(later.skip(begun - 1) =~= queue.skip(begun));
        assert forall|k: int| 0 <= k < begun implies #[trigger] filling.responses[k]
            == AudioResponse::Played(queue[k].seq_num) by {
            if k > 0 {
                assert(rest.responses[k - 1] == AudioResponse::Played(later[k - 1].seq_num));
            }
        }
    }
}

/// What waits begins with what is left of the piece that is played.
proof fn waiting_holds_what_is_played(in_data: Seq<u32>, queue: Seq<BufferModel>)
    ensures
        waiting(in_data, queue).len() >= in_data.len(),
{
}

/// The piece that was played last is the last one that is told to be played. Where none is told,
/// it is the one before.
pub proof fn the_last_piece_that_was_told(
    before: Option<usize>,
    responses: Seq<AudioResponse>,
    k: int,
    seq_num: usize,
)
    ensures
        (forall|j: int| 0 <= j < responses.len() ==> !(#[trigger] responses[j] is Played))
            ==> last_played(before, responses) == before,
        0 <= k < responses.len() && responses[k] == AudioResponse::Played(seq_num) && (forall|j: int|
            k < j < responses.len() ==> !(#[trigger] responses[j] is Played)) ==> last_played(
            before,
            responses,
        ) == Some(seq_num),
    decreases responses.len(),
{
    if responses.len() > 0 {
        let rest = responses.drop_last();
        assert(responses.last() == responses[responses.len() - 1]);
        assert(forall|j: int| 0 <= j < rest.len() ==> #[trigger] rest[j] == responses[j]);
        the_last_piece_that_was_told(before, rest, k, seq_num);
    }
}

} // verus!
