//! Playing and recording: what the buttons do.

use std::collections::BTreeSet;
use std::sync::Arc;

use crate::active_document::ActiveDocument;
use crate::document::{Clip, ClipId, RecordingId, StreamId};
use crate::double::Double;
use crate::duration_ext::{total_nanos, NANOS_PER_SEC, Span};
use crate::time::Timestamp;
use vstd::prelude::*;

verus! {

/// How many seconds pass between looking whether anything is to be saved.
pub const PROCESSOR_AUTOSAVE_INTERVAL_SECONDS: i64 = 10;

#[derive(Clone, Copy, Debug, PartialEq, Eq, Structural)]
pub enum PlaybackAction {
    Play,
    Record(RecordingId),
    PlayAndRecord(RecordingId),
}

#[derive(Clone, Copy, Debug, PartialEq, Eq, Structural)]
pub struct PlaybackState {
    /// Whether only the last part of what is recorded is kept.
    pub looped: bool,
    pub action: PlaybackAction,
}

/// What was asked for and waits for a confirmation.
#[derive(Clone, Copy, Debug, PartialEq, Eq, Structural)]
pub enum PendingLoopAction {
    Play,
    Record,
    PlayAndRecord,
}

#[derive(Clone, Copy, Debug, PartialEq, Eq, Structural)]
pub struct Playback {
    pub playback_state: Option<PlaybackState>,
    pub loop_enabled: bool,
    pub loop_confirmation_pending: Option<PendingLoopAction>,
}

/// Whether a recording was started in a document, and nothing else has changed.
pub open spec fn recording_was_started(
    before: ActiveDocument,
    after: ActiveDocument,
    id: RecordingId,
    start: (Timestamp, Double),
) -> bool {
    &&& after.doc().clips@ == before.doc().clips@
    &&& after.active() == before.active()
    &&& after.next_clip() == before.next_clip()
    &&& after.next_number() == before.next_number()
    &&& after.next_recording() == before.next_recording() + 1
    &&& after.recording_ids() == before.recording_ids().insert(id)
    &&& after.started(id) == start
    &&& after.stream_to_clip(id) == Map::<StreamId, ClipId>::empty()
    &&& forall|other: RecordingId|
        other != id ==> #[trigger] after.stream_to_clip(other) == before.stream_to_clip(other)
            && after.started(other) == before.started(other)
}

/// Whether nothing is in a document and nothing was ever recorded to it, but for a
/// recording that may have been started with `start`.
pub open spec fn starts_afresh(
    document: ActiveDocument,
    start: Option<(Timestamp, Double)>,
) -> bool {
    &&& document.doc().clips@ == Map::<ClipId, Arc<Clip>>::empty()
    &&& document.active() == Set::<ClipId>::empty()
    &&& document.next_clip() == 0
    &&& document.next_number() == 1
    &&& match start {
        Some(start) => {
            &&& document.recording_ids() == set![0usize]
            &&& document.next_recording() == 1
            &&& document.started(0) == start
            &&& document.stream_to_clip(0) == Map::<StreamId, ClipId>::empty()
        },
        None => {
            &&& document.recording_ids() == Set::<RecordingId>::empty()
            &&& document.next_recording() == 0
        },
    }
}

impl Playback {
    /// Whether starting anything has to be confirmed, because it would clear the document.
    pub open spec fn must_confirm(self, has_clips: bool) -> bool {
        self.playback_state is None && self.loop_enabled && has_clips
    }

    /// Whether the record button starts a recording.
    pub open spec fn record_starts(self, has_clips: bool) -> bool {
        match self.playback_state {
            None => !self.must_confirm(has_clips),
            Some(state) => state.action is Play,
        }
    }

    /// What the record button does. A recording that it starts is called `id`.
    pub open spec fn after_record(self, has_clips: bool, id: RecordingId) -> Playback {
        match self.playback_state {
            None => if self.must_confirm(has_clips) {
                Playback { loop_confirmation_pending: Some(PendingLoopAction::Record), ..self }
            } else {
                Playback {
                    playback_state: Some(
                        PlaybackState {
                            looped: self.loop_enabled,
                            action: PlaybackAction::Record(id),
                        },
                    ),
                    ..self
                }
            },
            Some(state) => match state.action {
                PlaybackAction::Play => Playback {
                    playback_state: Some(
                        PlaybackState { action: PlaybackAction::PlayAndRecord(id), ..state },
                    ),
                    ..self
                },
                PlaybackAction::Record(_) => Playback {
                    playback_state: None,
                    loop_enabled: false,
                    ..self
                },
                PlaybackAction::PlayAndRecord(_) => Playback {
                    playback_state: Some(PlaybackState { action: PlaybackAction::Play, ..state }),
                    ..self
                },
            },
        }
    }

    /// What the play button does.
    pub open spec fn after_play(self, has_clips: bool) -> Playback {
        match self.playback_state {
            None => if self.must_confirm(has_clips) {
                Playback { loop_confirmation_pending: Some(PendingLoopAction::Play), ..self }
            } else {
                Playback {
                    playback_state: Some(
                        PlaybackState { looped: self.loop_enabled, action: PlaybackAction::Play },
                    ),
                    ..self
                }
            },
            Some(state) => match state.action {
                PlaybackAction::Play => Playback {
                    playback_state: None,
                    loop_enabled: false,
                    ..self
                },
                PlaybackAction::Record(id) => Playback {
                    playback_state: Some(
                        PlaybackState { action: PlaybackAction::PlayAndRecord(id), ..state },
                    ),
                    ..self
                },
                PlaybackAction::PlayAndRecord(id) => Playback {
                    playback_state: Some(
                        PlaybackState { action: PlaybackAction::Record(id), ..state },
                    ),
                    ..self
                },
            },
        }
    }

    /// The recording that goes on.
    pub open spec fn recorded(self) -> Option<RecordingId> {
        match self.playback_state {
            Some(state) => match state.action {
                PlaybackAction::Play => None,
                PlaybackAction::Record(id) => Some(id),
                PlaybackAction::PlayAndRecord(id) => Some(id),
            },
            None => None,
        }
    }

    /// Nothing is played or recorded.
    pub fn new() -> (playback: Self)
        ensures
            playback == (Playback {
                playback_state: None,
                loop_enabled: false,
                loop_confirmation_pending: None,
            }),
    {
        Playback { playback_state: None, loop_enabled: false, loop_confirmation_pending: None }
    }

    /// The recording that goes on.
    pub fn recording(&self) -> (id: Option<RecordingId>)
        ensures
            id == self.recorded(),
    {
        match self.playback_state {
            Some(state) => match state.action {
                PlaybackAction::Play => None,
                PlaybackAction::Record(id) => Some(id),
                PlaybackAction::PlayAndRecord(id) => Some(id),
            },
            None => None,
        }
    }

    /// The recordings that go on, of which there is one at most.
    pub fn live_recordings(&self) -> (ids: BTreeSet<RecordingId>)
        ensures
            ids@ == match self.recorded() {
                Some(id) => set![id],
                None => Set::<RecordingId>::empty(),
            },
    {
        let mut ids: BTreeSet<RecordingId> = BTreeSet::new();
        if let Some(id) = self.recording() {
            ids.insert(id);
        }
        assert(ids@ =~= match self.recorded() {
            Some(id) => set![id],
            None => Set::<RecordingId>::empty(),
        });
        ids
    }

    /// Whether something is played.
    pub fn is_playing(&self) -> (playing: bool)
        ensures
            playing == (self.playback_state is Some && !(
            self.playback_state->0.action is Record)),
    {
        match self.playback_state {
            Some(state) => !matches!(state.action, PlaybackAction::Record(_)),
            None => false,
        }
    }

    /// Whether only the last part of what is recorded is kept.
    pub fn is_looped(&self) -> (looped: bool)
        ensures
            looped == (self.playback_state is Some && self.playback_state->0.looped),
    {
        match self.playback_state {
            Some(state) => state.looped,
            None => false,
        }
    }

    /// The record button was pressed.
    pub fn toggle_record(&mut self, document: &mut ActiveDocument, now: Timestamp, playhead: Double)
        requires
            old(document).wf(),
            old(document).next_recording() < usize::MAX,
        ensures
            final(document).wf(),
            ({
                let has_clips = old(document).doc().clips@.dom() != Set::<usize>::empty();
                let id = old(document).next_recording() as usize;
                &&& *final(self) == old(self).after_record(has_clips, id)
                &&& if old(self).record_starts(has_clips) {
                    recording_was_started(*old(document), *final(document), id, (now, playhead))
                } else {
                    *final(document) == *old(document)
                }
            }),
            record_pressed(
                *old(self),
                *old(document),
                (now, playhead),
                *final(self),
                *final(document),
            ),
    {
        let has_clips: bool = has_clips(document);
        match self.playback_state {
            None => {
                if self.loop_enabled && has_clips {
                    self.loop_confirmation_pending = Some(PendingLoopAction::Record);
                } else {
                    let id: RecordingId = document.record(now, playhead);
                    assert(recording_was_started(*old(document), *document, id, (now, playhead)));
                    self.playback_state = Some(
                        PlaybackState {
                            looped: self.loop_enabled,
                            action: PlaybackAction::Record(id),
                        },
                    );
                }
            },
            Some(state) => match state.action {
                PlaybackAction::Play => {
                    let id: RecordingId = document.record(now, playhead);
                    assert(recording_was_started(*old(document), *document, id, (now, playhead)));
                    self.playback_state = Some(
                        PlaybackState {
                            looped: state.looped,
                            action: PlaybackAction::PlayAndRecord(id),
                        },
                    );
                },
                PlaybackAction::Record(_) => {
                    self.loop_enabled = false;
                    self.playback_state = None;
                },
                PlaybackAction::PlayAndRecord(_) => {
                    self.playback_state = Some(
                        PlaybackState { looped: state.looped, action: PlaybackAction::Play },
                    );
                },
            },
        }
    }

    /// The play button was pressed.
    pub fn toggle_play(&mut self, document: &ActiveDocument)
        ensures
            *final(self) == old(self).after_play(
                document.doc().clips@.dom() != Set::<usize>::empty(),
            ),
            play_pressed(*old(self), *document, *final(self)),
    {
        let has_clips: bool = has_clips(document);
        match self.playback_state {
            None => {
                if self.loop_enabled && has_clips {
                    self.loop_confirmation_pending = Some(PendingLoopAction::Play);
                } else {
                    self.playback_state = Some(
                        PlaybackState { looped: self.loop_enabled, action: PlaybackAction::Play },
                    );
                }
            },
            Some(state) => match state.action {
                PlaybackAction::Play => {
                    self.loop_enabled = false;
                    self.playback_state = None;
                },
                PlaybackAction::Record(id) => {
                    self.playback_state = Some(
                        PlaybackState {
                            looped: state.looped,
                            action: PlaybackAction::PlayAndRecord(id),
                        },
                    );
                },
                PlaybackAction::PlayAndRecord(id) => {
                    self.playback_state = Some(
                        PlaybackState { looped: state.looped, action: PlaybackAction::Record(id) },
                    );
                },
            },
        }
    }

    /// The stop button was pressed.
    pub fn stop(&mut self)
        ensures
            *final(self) == (Playback {
                playback_state: None,
                loop_enabled: false,
                ..*old(self)
            }),
            stop_pressed(*old(self), *final(self)),
    {
        self.loop_enabled = false;
        self.playback_state = None;
    }

    /// The loop button was pressed. It does nothing while something is played or recorded.
    pub fn toggle_loop(&mut self)
        ensures
            *final(self) == if old(self).playback_state is None {
                Playback { loop_enabled: !old(self).loop_enabled, ..*old(self) }
            } else {
                *old(self)
            },
            loop_pressed(*old(self), *final(self)),
    {
        if self.playback_state.is_none() {
            self.loop_enabled = !self.loop_enabled;
        }
    }

    /// What waits for a confirmation was refused.
    pub fn decline(&mut self)
        ensures
            *final(self) == (Playback { loop_confirmation_pending: None, ..*old(self) }),
    {
        self.loop_confirmation_pending = None;
    }

    /// What waits for a confirmation was confirmed: the document is cleared, and playing
    /// or recording starts in a loop, at the time `zero`.
    pub fn confirm(&mut self, document: &mut ActiveDocument, now: Timestamp, zero: Double)
        ensures
            old(self).loop_confirmation_pending is None ==> {
                &&& *final(self) == *old(self)
                &&& *final(document) == *old(document)
            },
            old(self).loop_confirmation_pending is Some ==> {
                let pending = old(self).loop_confirmation_pending->0;
                &&& final(document).wf()
                &&& starts_afresh(
                    *final(document),
                    if pending is Play {
                        None
                    } else {
                        Some((now, zero))
                    },
                )
                &&& *final(self) == (Playback {
                    playback_state: Some(
                        PlaybackState {
                            looped: true,
                            action: match pending {
                                PendingLoopAction::Play => PlaybackAction::Play,
                                PendingLoopAction::Record => PlaybackAction::Record(0),
                                PendingLoopAction::PlayAndRecord => PlaybackAction::PlayAndRecord(
                                    0,
                                ),
                            },
                        },
                    ),
                    loop_confirmation_pending: None,
                    ..*old(self)
                })
            },
            confirmed(*old(self), (now, zero), *final(self), *final(document)),
    {
        if let Some(pending) = self.loop_confirmation_pending {
            *document = ActiveDocument::new();
            let action: PlaybackAction = match pending {
                PendingLoopAction::Play => PlaybackAction::Play,
                PendingLoopAction::Record => PlaybackAction::Record(document.record(now, zero)),
                PendingLoopAction::PlayAndRecord => PlaybackAction::PlayAndRecord(
                    document.record(now, zero),
                ),
            };
            self.playback_state = Some(PlaybackState { looped: true, action });
            self.loop_confirmation_pending = None;
            assert(document.recording_ids() =~= if pending is Play {
                Set::<usize>::empty()
            } else {
                set![0usize]
            });
        }
    }
}

/// Whether a document has any clips.
fn has_clips(document: &ActiveDocument) -> (result: bool)
    ensures
        result == (document.doc().clips@.dom() != Set::<usize>::empty()),
{
    let ids: Vec<usize> = crate::maps::sorted_keys(&document.document().clips);
    proof {
        let clips = document.doc().clips@.dom();
        if ids@.len() > 0 {
            assert(ids@.contains(ids@[0]));
            assert(clips.contains(ids@[0]));
        } else {
            assert forall|id: usize| !clips.contains(id) by {
                assert(!ids@.contains(id));
            }
            assert(clips =~= Set::<usize>::empty());
        }
    }
    ids.len() > 0
}

/// Says when to look whether anything is to be saved.
#[derive(Clone, Copy, Debug, PartialEq, Eq, Structural)]
pub struct Autosave {
    pub last_save_check: Timestamp,
}

impl Autosave {
    /// Whether enough time has passed since the last time. If so, this is now the last
    /// time.
    pub fn is_due(&mut self, now: Timestamp) -> (due: bool)
        requires
            old(self).last_save_check.nanos < NANOS_PER_SEC,
            now.nanos < NANOS_PER_SEC,
        ensures
            ({
                let passed = total_nanos(now.secs, now.nanos) - total_nanos(
                    old(self).last_save_check.secs,
                    old(self).last_save_check.nanos,
                );
                &&& passed <= i64::MAX * 1_000_000 ==> due == (passed
                    >= PROCESSOR_AUTOSAVE_INTERVAL_SECONDS * NANOS_PER_SEC)
                &&& passed > i64::MAX * 1_000_000 ==> due
                &&& final(self).last_save_check == if due {
                    now
                } else {
                    old(self).last_save_check
                }
            }),
    {
        let due: bool = match Span::between(self.last_save_check, now) {
            Some(passed) => passed.num_seconds() >= PROCESSOR_AUTOSAVE_INTERVAL_SECONDS,
            None => self.last_save_check.lt(now),
        };
        if due {
            self.last_save_check = now;
        }
        due
    }
}

/// Pressing the play button twice while recording changes nothing.
pub proof fn playing_along_is_undone(playback: Playback, has_clips: bool, later: bool)
    requires
        playback.recorded() is Some,
    ensures
        playback.after_play(has_clips).after_play(later) == playback,
        playback.after_play(has_clips).recorded() == playback.recorded(),
{
}

/// Pressing the record button while playing and recording stops the recording and plays
/// on; pressing it again starts a new one.
pub proof fn recording_can_be_resumed(
    playback: Playback,
    has_clips: bool,
    later: bool,
    id: RecordingId,
    new_id: RecordingId,
)
    requires
        playback.playback_state is Some,
        playback.playback_state->0.action is PlayAndRecord,
    ensures
        playback.after_record(has_clips, id).recorded() is None,
        playback.after_record(has_clips, id).after_record(later, new_id).recorded() == Some(new_id),
{
}

/// Whether the record button was pressed between two states.
pub open spec fn record_pressed(
    before: Playback,
    document: ActiveDocument,
    start: (Timestamp, Double),
    after: Playback,
    changed: ActiveDocument,
) -> bool {
    let has_clips = document.doc().clips@.dom() != Set::<usize>::empty();
    let id = document.next_recording() as usize;
    &&& after == before.after_record(has_clips, id)
    &&& if before.record_starts(has_clips) {
        recording_was_started(document, changed, id, start)
    } else {
        changed == document
    }
}

/// Whether the play button was pressed between two states.
pub open spec fn play_pressed(before: Playback, document: ActiveDocument, after: Playback) -> bool {
    after == before.after_play(document.doc().clips@.dom() != Set::<usize>::empty())
}

/// Whether the stop button was pressed between two states.
pub open spec fn stop_pressed(before: Playback, after: Playback) -> bool {
    after == Playback { playback_state: None, loop_enabled: false, ..before }
}

/// Whether the loop button was pressed between two states.
pub open spec fn loop_pressed(before: Playback, after: Playback) -> bool {
    after == if before.playback_state is None {
        Playback { loop_enabled: !before.loop_enabled, ..before }
    } else {
        before
    }
}

/// Whether something is played.
pub open spec fn plays(playback: Playback) -> bool {
    playback.playback_state matches Some(state) && (state.action is Play
        || state.action is PlayAndRecord)
}

/// Whether something is recorded.
pub open spec fn records(playback: Playback) -> bool {
    playback.playback_state matches Some(state) && (state.action is Record
        || state.action is PlayAndRecord)
}

/// What is played or recorded after nothing was is looped exactly where a loop was asked for.
pub proof fn what_starts_is_looped_as_asked(
    before: Playback,
    document: ActiveDocument,
    start: (Timestamp, Double),
    after: Playback,
    changed: ActiveDocument,
)
    requires
        before.playback_state is None,
        after.playback_state is Some,
        record_pressed(before, document, start, after, changed) || play_pressed(
            before,
            document,
            after,
        ),
    ensures
        after.playback_state->0.looped == before.loop_enabled,
        after.loop_enabled == before.loop_enabled,
{
}

/// No button but stop changes whether what is played or recorded is looped. Pressing the loop
/// button does nothing at all then.
pub proof fn what_goes_on_stays_looped(
    before: Playback,
    document: ActiveDocument,
    start: (Timestamp, Double),
    after: Playback,
    changed: ActiveDocument,
)
    requires
        before.playback_state is Some,
        record_pressed(before, document, start, after, changed) || play_pressed(
            before,
            document,
            after,
        ) || loop_pressed(before, after),
    ensures
        after.playback_state is Some ==> after.playback_state->0.looped
            == before.playback_state->0.looped && after.loop_enabled == before.loop_enabled,
        after.playback_state is None ==> !after.loop_enabled,
        after.loop_confirmation_pending == before.loop_confirmation_pending,
        loop_pressed(before, after) ==> after == before,
{
}

/// The record button starts a recording where there is none, and ends the one that there is. It
/// does not change whether something is played. A recording that it starts is a new one of the
/// document, at the time and the place at which the button was pressed.
pub proof fn the_record_button_starts_and_ends_recordings(
    before: Playback,
    document: ActiveDocument,
    start: (Timestamp, Double),
    after: Playback,
    changed: ActiveDocument,
)
    requires
        document.next_recording() <= usize::MAX,
        record_pressed(before, document, start, after, changed),
        !(before.playback_state is None && before.loop_enabled
            && document.doc().clips@.dom() != Set::<usize>::empty()),
    ensures
        records(after) == !records(before),
        plays(after) == plays(before),
        records(after) ==> {
            let id = match after.playback_state->0.action {
                PlaybackAction::Record(id) => id,
                PlaybackAction::PlayAndRecord(id) => id,
                PlaybackAction::Play => 0,
            };
            &&& id == document.next_recording()
            &&& changed.recording_ids().contains(id)
            &&& changed.started(id) == start
            &&& changed.stream_to_clip(id).dom() == Set::<StreamId>::empty()
            &&& changed.next_recording() == document.next_recording() + 1
            &&& changed.doc().clips@ == document.doc().clips@
            &&& forall|other: RecordingId|
                other != id ==> (#[trigger] changed.recording_ids().contains(other)
                    <==> document.recording_ids().contains(other))
        },
        !records(after) ==> changed == document,
{
}

/// The play button starts to play where nothing is played, and stops where something is. It does
/// not change what is recorded.
pub proof fn the_play_button_starts_and_stops_playing(
    before: Playback,
    document: ActiveDocument,
    after: Playback,
)
    requires
        play_pressed(before, document, after),
        !(before.playback_state is None && before.loop_enabled
            && document.doc().clips@.dom() != Set::<usize>::empty()),
    ensures
        plays(after) == !plays(before),
        records(after) == records(before),
        records(before) ==> after.recorded() == before.recorded(),
{
}

/// Where a loop was asked for and there are clips, which it would clear, pressing play or record
/// only asks whether to go on. What is asked is what the button would have started.
pub proof fn looping_over_clips_is_asked_about(
    before: Playback,
    document: ActiveDocument,
    start: (Timestamp, Double),
    recorded: Playback,
    changed: ActiveDocument,
    played: Playback,
    clip: ClipId,
)
    requires
        before.playback_state is None,
        before.loop_enabled,
        document.doc().clips@.contains_key(clip),
        record_pressed(before, document, start, recorded, changed),
        play_pressed(before, document, played),
    ensures
        recorded.playback_state is None && played.playback_state is None,
        recorded.loop_confirmation_pending == Some(PendingLoopAction::Record),
        played.loop_confirmation_pending == Some(PendingLoopAction::Play),
        recorded.loop_enabled && played.loop_enabled,
        changed == document,
{
    assert(document.doc().clips@.dom().contains(clip));
}

/// After stop nothing is played or recorded, and no loop is asked for. The loop button asks for
/// a loop, and pressed again no longer asks for it.
pub proof fn stopping_and_looping(before: Playback, after: Playback, again: Playback)
    ensures
        stop_pressed(before, after) ==> !plays(after) && !records(after) && !after.loop_enabled
            && after.loop_confirmation_pending == before.loop_confirmation_pending,
        before.playback_state is None && loop_pressed(before, after) ==> after.loop_enabled
            == !before.loop_enabled && after.playback_state is None
            && after.loop_confirmation_pending == before.loop_confirmation_pending,
        loop_pressed(before, after) && loop_pressed(after, again) ==> again == before,
{
}

/// The recording that goes on is the one of what is recorded.
pub proof fn the_recording_is_that_of_the_action(playback: Playback, id: RecordingId)
    ensures
        playback.recorded() is Some <==> records(playback),
        playback.recorded() == Some(id) <==> (playback.playback_state matches Some(state) && (
        state.action == PlaybackAction::Record(id) || state.action == PlaybackAction::PlayAndRecord(
            id,
        ))),
{
}

/// Whether what was asked about was confirmed between two states.
pub open spec fn confirmed(
    before: Playback,
    start: (Timestamp, Double),
    after: Playback,
    changed: ActiveDocument,
) -> bool {
    before.loop_confirmation_pending matches Some(pending) ==> {
        &&& starts_afresh(
            changed,
            if pending is Play {
                None
            } else {
                Some(start)
            },
        )
        &&& after == (Playback {
            playback_state: Some(
                PlaybackState {
                    looped: true,
                    action: match pending {
                        PendingLoopAction::Play => PlaybackAction::Play,
                        PendingLoopAction::Record => PlaybackAction::Record(0),
                        PendingLoopAction::PlayAndRecord => PlaybackAction::PlayAndRecord(0),
                    },
                },
            ),
            loop_confirmation_pending: None,
            ..before
        })
    }
}

/// Confirming clears the document and does what was asked about, in a loop: it plays where that
/// was asked, and records to a new recording of the document where that was.
pub proof fn confirming_starts_what_was_asked(
    before: Playback,
    start: (Timestamp, Double),
    after: Playback,
    changed: ActiveDocument,
)
    requires
        before.loop_confirmation_pending is Some,
        confirmed(before, start, after, changed),
    ensures
        after.playback_state is Some && after.playback_state->0.looped,
        after.loop_confirmation_pending is None,
        after.loop_enabled == before.loop_enabled,
        plays(after) <==> !(before.loop_confirmation_pending->0 is Record),
        records(after) <==> !(before.loop_confirmation_pending->0 is Play),
        forall|clip: ClipId| !#[trigger] changed.doc().clips@.contains_key(clip),
        records(after) ==> {
            &&& after.recorded() is Some
            &&& changed.recording_ids().contains(after.recorded()->0)
            &&& changed.started(after.recorded()->0) == start
        },
        !records(after) ==> forall|id: RecordingId| !#[trigger] changed.recording_ids().contains(id),
{
}

/// A recording that is started knows no streams yet and has the time at which it was started. The
/// clips and the other recordings stay.
pub proof fn recordings_start_without_clips(
    before: ActiveDocument,
    after: ActiveDocument,
    id: RecordingId,
    start: (Timestamp, Double),
    other: RecordingId,
)
    requires
        recording_was_started(before, after, id, start),
    ensures
        after.doc().clips@ == before.doc().clips@,
        after.active() == before.active(),
        after.next_clip() == before.next_clip(),
        after.next_number() == before.next_number(),
        after.next_recording() == before.next_recording() + 1,
        after.recording_ids().contains(id),
        after.started(id) == start,
        after.stream_to_clip(id).dom() == Set::<StreamId>::empty(),
        other != id ==> (after.recording_ids().contains(other) <==> before.recording_ids().contains(
            other,
        )),
        other != id ==> after.stream_to_clip(other) == before.stream_to_clip(other)
            && after.started(other) == before.started(other),
{
}

/// A document that is cleared has no clips and numbers them from the start again. A recording that
/// is then started is its first one.
pub proof fn cleared_documents_start_afresh(
    document: ActiveDocument,
    start: Option<(Timestamp, Double)>,
    clip: ClipId,
    recording: RecordingId,
)
    requires
        starts_afresh(document, start),
    ensures
        !document.doc().clips@.contains_key(clip),
        !document.active().contains(clip),
        document.next_clip() == 0,
        document.next_number() == 1,
        start is None ==> !document.recording_ids().contains(recording)
            && document.next_recording() == 0,
        start matches Some(start) ==> {
            &&& document.recording_ids().contains(recording) <==> recording == 0
            &&& document.next_recording() == 1
            &&& document.started(0) == start
            &&& document.stream_to_clip(0).dom() == Set::<StreamId>::empty()
        },
{
}

} // verus!
