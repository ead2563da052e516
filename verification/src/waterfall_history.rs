//! The waterfall as one of the processors: what it reports of the streams that it is fed,
//! and the history that is kept of that.

use std::collections::BTreeSet;

use crate::stream_history::{HistoryModel, Levels, NAN, StreamHistory, WaterfallRow};
use crate::textures::{create_command, fits_a_buffer, TEXTURE_HEIGHT, TextureCommand};
use crate::time::Timestamp;
use vstd::prelude::*;

verus! {

/// How the waterfall is set up: there is nothing to choose.
#[derive(Clone, Copy, Debug, PartialEq, Eq, Structural)]
pub struct WaterfallProcessorParameters {}

/// What the processor tells the history.
#[derive(Clone, Copy, Debug, PartialEq, Eq, Structural)]
pub enum WaterfallMessage {
    Reset,
    StartStream { stream_id: usize, spectrum_len: u32, start_time: Timestamp },
    EndStream(usize),
    PushRow { stream_id: usize, time: Timestamp, min: u32, max: u32 },
}

/// The streams that are processed.
pub struct WaterfallProcessor {
    streams: BTreeSet<usize>,
}

impl WaterfallProcessor {
    /// The streams that are processed.
    pub closed spec fn streams(&self) -> Set<usize> {
        self.streams@
    }

    /// A processor without streams.
    pub fn new() -> (processor: WaterfallProcessor)
        ensures
            processor.streams() == Set::<usize>::empty(),
    {
        WaterfallProcessor { streams: BTreeSet::new() }
    }

    /// Forgets all streams.
    pub fn reset(&mut self) -> (message: WaterfallMessage)
        ensures
            final(self).streams() == Set::<usize>::empty(),
            message == WaterfallMessage::Reset,
    {
        self.streams.clear();
        WaterfallMessage::Reset
    }

    /// A stream has started.
    pub fn start_stream(
        &mut self,
        stream_id: usize,
        fft_size: u32,
        start_time: Timestamp,
    ) -> (message: WaterfallMessage)
        requires
            !old(self).streams().contains(stream_id),
        ensures
            final(self).streams() == old(self).streams().insert(stream_id),
            message == (WaterfallMessage::StartStream {
                stream_id,
                spectrum_len: fft_size,
                start_time,
            }),
    {
        self.streams.insert(stream_id);
        WaterfallMessage::StartStream { stream_id, spectrum_len: fft_size, start_time }
    }

    /// A piece of a stream was processed into a row with these levels.
    pub fn process_chunk(
        &self,
        stream_id: usize,
        time: Timestamp,
        min: u32,
        max: u32,
    ) -> (message: WaterfallMessage)
        requires
            self.streams().contains(stream_id),
        ensures
            message == (WaterfallMessage::PushRow { stream_id, time, min, max }),
    {
        WaterfallMessage::PushRow { stream_id, time, min, max }
    }

    /// A stream has ended.
    pub fn end_stream(&mut self, stream_id: usize) -> (message: WaterfallMessage)
        requires
            old(self).streams().contains(stream_id),
        ensures
            final(self).streams() == old(self).streams().remove(stream_id),
            message == WaterfallMessage::EndStream(stream_id),
    {
        self.streams.remove(&stream_id);
        WaterfallMessage::EndStream(stream_id)
    }
}

/// The row that a message speaks of.
pub open spec fn row_of(time: Timestamp, min: u32, max: u32) -> WaterfallRow {
    WaterfallRow { time, levels: Levels { min, max, peak: NAN, overload: false } }
}

/// The history after a message.
pub open spec fn after_message(model: HistoryModel<()>, message: WaterfallMessage) -> HistoryModel<
    (),
> {
    match message {
        WaterfallMessage::Reset => HistoryModel {
            active: Map::empty(),
            finished: Map::empty(),
            ..model
        },
        WaterfallMessage::StartStream { stream_id, spectrum_len, start_time } => model.started(
            stream_id,
            (),
            start_time,
            spectrum_len,
        ),
        WaterfallMessage::EndStream(stream_id) => model.ended(stream_id),
        WaterfallMessage::PushRow { stream_id, time, min, max } => model.after_row(
            stream_id,
            row_of(time, min, max),
        ),
    }
}

/// What is to be done for a message.
pub open spec fn message_commands(model: HistoryModel<()>, message: WaterfallMessage) -> Seq<
    TextureCommand,
> {
    match message {
        WaterfallMessage::Reset => Seq::empty(),
        WaterfallMessage::StartStream { stream_id, spectrum_len, start_time } => seq![
            create_command(model.next as usize, spectrum_len, TEXTURE_HEIGHT),
        ],
        WaterfallMessage::EndStream(stream_id) => model.end_commands(stream_id),
        WaterfallMessage::PushRow { stream_id, time, min, max } => model.row_commands(stream_id),
    }
}

/// Whether a message makes sense for the streams that there are: a stream starts once,
/// and only one that has started goes on or ends.
pub open spec fn fits_streams(streams: Set<usize>, message: WaterfallMessage) -> bool {
    match message {
        WaterfallMessage::Reset => true,
        WaterfallMessage::StartStream { stream_id, spectrum_len, start_time } => {
            &&& !streams.contains(stream_id)
            &&& fits_a_buffer(spectrum_len, TEXTURE_HEIGHT)
        },
        WaterfallMessage::EndStream(stream_id) => streams.contains(stream_id),
        WaterfallMessage::PushRow { stream_id, time, min, max } => streams.contains(stream_id),
    }
}

/// The streams after a message.
pub open spec fn streams_after(streams: Set<usize>, message: WaterfallMessage) -> Set<usize> {
    match message {
        WaterfallMessage::Reset => Set::empty(),
        WaterfallMessage::StartStream { stream_id, spectrum_len, start_time } => streams.insert(
            stream_id,
        ),
        WaterfallMessage::EndStream(stream_id) => streams.remove(stream_id),
        WaterfallMessage::PushRow { stream_id, time, min, max } => streams,
    }
}

/// The waterfalls of the streams that the processor has reported.
pub struct WaterfallHistory {
    pub history: StreamHistory<()>,
}

impl WaterfallHistory {
    pub open spec fn model(&self) -> HistoryModel<()> {
        self.history.model()
    }

    pub open spec fn wf(&self) -> bool {
        self.history.wf()
    }

    /// No streams at all.
    pub fn new() -> (history: WaterfallHistory)
        ensures
            history.wf(),
            history.model() == HistoryModel::<()>::empty(),
    {
        WaterfallHistory { history: StreamHistory::new() }
    }

    /// Takes up what the processor has reported.
    pub fn update(&mut self, message: WaterfallMessage) -> (commands: Vec<TextureCommand>)
        requires
            old(self).wf(),
            old(self).model().next < usize::MAX,
            fits_streams(old(self).model().active.dom(), message),
        ensures
            final(self).wf(),
            final(self).model() == after_message(old(self).model(), message),
            commands@ == message_commands(old(self).model(), message),
    {
        let mut commands: Vec<TextureCommand> = Vec::new();
        match message {
            WaterfallMessage::Reset => {
                self.history.active_streams.clear();
                self.history.finished_streams.clear();
                assert(self.model().finished =~= Map::empty());
                assert(self.model().active =~= Map::empty());
            },
            WaterfallMessage::StartStream { stream_id, spectrum_len, start_time } => {
                self.history.start(&mut commands, stream_id, (), start_time, spectrum_len);
            },
            WaterfallMessage::EndStream(stream_id) => {
                self.history.end(&mut commands, stream_id);
            },
            WaterfallMessage::PushRow { stream_id, time, min, max } => {
                let levels = Levels { min, max, peak: NAN, overload: false };
                self.history.push_row(&mut commands, stream_id, WaterfallRow { time, levels });
            },
        }
        assert(commands@ =~= message_commands(old(self).model(), message));
        commands
    }
}

/// A history that takes up every message keeps the streams that the processor has, so
/// that no later message finds a stream missing or started twice.
pub proof fn history_keeps_the_streams(model: HistoryModel<()>, message: WaterfallMessage)
    requires
        fits_streams(model.active.dom(), message),
    ensures
        after_message(model, message).active.dom() == streams_after(model.active.dom(), message),
{
    assert(after_message(model, message).active.dom() =~= streams_after(
        model.active.dom(),
        message,
    ));
}

/// A message is about one stream, and the others stay. What starts has no rows yet, a row is added
/// with its time and its levels, and a reset leaves nothing but the numbers of the textures.
pub proof fn messages_are_about_one_stream(
    model: HistoryModel<()>,
    stream_id: usize,
    other: usize,
    spectrum_len: u32,
    time: Timestamp,
    min: u32,
    max: u32,
)
    requires
        other != stream_id,
    ensures
        ({
            let reset = after_message(model, WaterfallMessage::Reset);
            let start = after_message(
                model,
                WaterfallMessage::StartStream { stream_id, spectrum_len, start_time: time },
            );
            let end = after_message(model, WaterfallMessage::EndStream(stream_id));
            let row = after_message(model, WaterfallMessage::PushRow { stream_id, time, min, max });
            &&& !reset.active.contains_key(other) && !reset.finished.contains_key(other)
            &&& reset.next == model.next
            &&& start.active.contains_key(stream_id)
            &&& start.active[stream_id].active.current_row == 0
            &&& start.active[stream_id].active.width == spectrum_len
            &&& start.active[stream_id].active.start_time == time
            &&& !end.active.contains_key(stream_id)
            &&& row.active[stream_id].active.end_time == time
            &&& row.active[stream_id].levels.min == min && row.active[stream_id].levels.max == max
            &&& start.active.contains_key(other) <==> model.active.contains_key(other)
            &&& end.active.contains_key(other) <==> model.active.contains_key(other)
            &&& row.active.contains_key(other) <==> model.active.contains_key(other)
            &&& model.active.contains_key(other) ==> start.active[other] == model.active[other]
                && end.active[other] == model.active[other] && row.active[other]
                == model.active[other]
            &&& start.finished == model.finished
        }),
{
}

/// A row has the time and the levels that are told of it. Of its peak nothing is known, and it is
/// not overloaded.
pub proof fn rows_have_what_is_told_of_them(time: Timestamp, min: u32, max: u32)
    ensures
        row_of(time, min, max).time == time,
        row_of(time, min, max).levels.min == min,
        row_of(time, min, max).levels.max == max,
        row_of(time, min, max).levels.peak == NAN,
        !row_of(time, min, max).levels.overload,
{
}

} // verus!
