//! Inspecting and playing transmissions.

use crate::double::Double;
use crate::fm_history::TransmissionId;
use vstd::prelude::*;

verus! {

#[derive(Clone, Copy, Debug)]
pub enum PlayState {
    Paused,
    Play,
    /// Playing for as long as a button is held down. Once it is released, the position
    /// goes back.
    PlayTemp { seek_on_release: Double },
}

/// The position in the transmission that is inspected.
#[derive(Clone, Copy, Debug)]
pub struct TransmissionInspectorState {
    pub transmission_id: TransmissionId,
    pub time: Double,
    pub play_state: PlayState,
}

/// What is known of the audio that is played.
#[derive(Clone, Copy, Debug, PartialEq, Eq, Structural)]
pub struct Player {
    /// The first piece that was not handed over yet.
    pub next_seq_num: isize,
}

/// When the transmission that is inspected starts and ends, and when the one after it
/// starts, if there is one.
#[derive(Clone, Copy, Debug)]
pub struct TransmissionBounds {
    pub start_time: Double,
    pub end_time: Double,
    pub next_start_time: Option<Double>,
}

/// Pieces of audio, from the first one to before the last one.
#[derive(Clone, Copy, Debug, PartialEq, Eq, Structural)]
pub struct AudioRange {
    pub start: isize,
    pub end: isize,
}

#[derive(Clone, Copy, Debug)]
pub struct FmUi {
    pub inspector_state: Option<TransmissionInspectorState>,
    pub player: Option<Player>,
}

/// The position once it was moved, but not beyond the transmission. Where it is played to
/// the end, the next transmission follows.
pub open spec fn advanced(
    inspector: TransmissionInspectorState,
    moved_time: Double,
    bounds: TransmissionBounds,
) -> TransmissionInspectorState {
    let time = if inspector.play_state is Paused {
        inspector.time
    } else {
        moved_time
    };
    if bounds.end_time.below(time) {
        if inspector.play_state is Play && bounds.next_start_time is Some {
            TransmissionInspectorState {
                transmission_id: (inspector.transmission_id + 1) as usize,
                time: bounds.next_start_time->0,
                ..inspector
            }
        } else {
            TransmissionInspectorState { time: bounds.end_time, ..inspector }
        }
    } else if time.below(bounds.start_time) {
        TransmissionInspectorState { time: bounds.start_time, ..inspector }
    } else {
        TransmissionInspectorState { time, ..inspector }
    }
}

/// Whether the position came to the end of a transmission while it was played.
pub open spec fn ran_out(
    inspector: TransmissionInspectorState,
    moved_time: Double,
    bounds: TransmissionBounds,
) -> bool {
    inspector.play_state is Play && bounds.end_time.below(moved_time)
}

/// The smaller of two numbers.
pub open spec fn smaller(a: int, b: int) -> int {
    if b < a {
        b
    } else {
        a
    }
}

/// Which pieces of audio are handed over next, and what is then known of the audio.
pub open spec fn fed(
    player: Option<Player>,
    chunk_index: isize,
    lookahead_index: isize,
    end_index: isize,
) -> (Option<AudioRange>, Player) {
    let start = match player {
        Some(player) => player.next_seq_num,
        None => chunk_index,
    };
    let end = smaller(lookahead_index as int, end_index as int) as isize;
    if start < end {
        (Some(AudioRange { start, end }), Player { next_seq_num: end })
    } else {
        (None, Player { next_seq_num: start })
    }
}

impl FmUi {
    /// Nothing is inspected.
    pub fn new() -> (ui: Self)
        ensures
            ui.inspector_state is None,
            ui.player is None,
    {
        FmUi { inspector_state: None, player: None }
    }

    /// A transmission was pressed: inspects it there, and plays it for as long as the
    /// button is held down, unless something is played already.
    pub fn inspect_and_play(&mut self, transmission_id: TransmissionId, time: Double)
        ensures
            final(self).player is None,
            final(self).inspector_state == Some(
                TransmissionInspectorState {
                    transmission_id,
                    time,
                    play_state: if old(self).inspector_state is Some && old(self).inspector_state->0.play_state is Play {
                        PlayState::Play
                    } else {
                        PlayState::PlayTemp { seek_on_release: time }
                    },
                },
            ),
            is_inspected(*old(self), transmission_id, time, *final(self)),
    {
        let playing: bool = match self.inspector_state {
            Some(inspector) => matches!(inspector.play_state, PlayState::Play),
            None => false,
        };
        let play_state: PlayState = if playing {
            PlayState::Play
        } else {
            PlayState::PlayTemp { seek_on_release: time }
        };
        self.inspector_state = Some(
            TransmissionInspectorState { transmission_id, time, play_state },
        );
        self.player = None;
    }

    /// The button was released: stops what was played for as long as it was held down, and
    /// goes back to where that began.
    pub fn release(&mut self)
        ensures
            match old(self).inspector_state {
                Some(inspector) => match inspector.play_state {
                    PlayState::PlayTemp { seek_on_release } => {
                        &&& final(self).inspector_state == Some(
                            TransmissionInspectorState {
                                time: seek_on_release,
                                play_state: PlayState::Paused,
                                ..inspector
                            },
                        )
                        &&& final(self).player is None
                    },
                    _ => *final(self) == *old(self),
                },
                None => *final(self) == *old(self),
            },
            was_released(*old(self), *final(self)),
    {
        if let Some(inspector) = self.inspector_state {
            if let PlayState::PlayTemp { seek_on_release } = inspector.play_state {
                self.inspector_state = Some(
                    TransmissionInspectorState {
                        transmission_id: inspector.transmission_id,
                        time: seek_on_release,
                        play_state: PlayState::Paused,
                    },
                );
                self.player = None;
            }
        }
    }

    /// Moves the position on to `moved_time` where something is played. `bounds` is that
    /// of the transmission that is inspected, if it still exists. Returns whether there is
    /// anything to play.
    pub fn advance(&mut self, moved_time: Double, bounds: Option<TransmissionBounds>) -> (playing:
        bool)
        requires
            old(self).inspector_state is Some ==> old(self).inspector_state->0.transmission_id
                < usize::MAX,
        ensures
            old(self).inspector_state is None || bounds is None ==> {
                &&& final(self).inspector_state is None
                &&& final(self).player is None
                &&& !playing
            },
            old(self).inspector_state is Some && bounds is Some ==> {
                let inspector = old(self).inspector_state->0;
                let follows = ran_out(inspector, moved_time, bounds->0)
                    && bounds->0.next_start_time is Some;
                &&& final(self).inspector_state == Some(advanced(inspector, moved_time, bounds->0))
                &&& final(self).player == if follows {
                    None
                } else {
                    old(self).player
                }
                &&& playing == (!(inspector.play_state is Paused) && (follows || !ran_out(
                    inspector,
                    moved_time,
                    bounds->0,
                )))
            },
            went_on(*old(self), moved_time, bounds, *final(self), playing),
    {
        match (self.inspector_state, bounds) {
            (Some(inspector), Some(bounds)) => {
                let mut inspector = inspector;
                let mut playing: bool = false;
                if !matches!(inspector.play_state, PlayState::Paused) {
                    inspector.time = moved_time;
                    playing = true;
                }
                if bounds.end_time.lt(inspector.time) {
                    if matches!(inspector.play_state, PlayState::Play) {
                        match bounds.next_start_time {
                            Some(next_start_time) => {
                                inspector.transmission_id = inspector.transmission_id + 1;
                                inspector.time = next_start_time;
                                self.player = None;
                            },
                            None => {
                                inspector.time = bounds.end_time;
                                playing = false;
                            },
                        }
                    } else {
                        inspector.time = bounds.end_time;
                    }
                } else if inspector.time.lt(bounds.start_time) {
                    inspector.time = bounds.start_time;
                }
                self.inspector_state = Some(inspector);
                playing
            },
            _ => {
                self.inspector_state = None;
                self.player = None;
                false
            },
        }
    }

    /// Whether the controls can be used: not while something is played for as long as a
    /// button is held down.
    pub fn controls_enabled(&self) -> (enabled: bool)
        ensures
            enabled == (self.inspector_state is Some && !(
            self.inspector_state->0.play_state is PlayTemp)),
    {
        match self.inspector_state {
            Some(inspector) => !matches!(inspector.play_state, PlayState::PlayTemp { .. }),
            None => false,
        }
    }

    /// Goes to the start of the transmission before this one, if there is one.
    pub fn previous(&mut self, prev_start_time: Option<Double>)
        ensures
            match (old(self).inspector_state, prev_start_time) {
                (Some(inspector), Some(time)) => if inspector.transmission_id > 0 {
                    &&& final(self).inspector_state == Some(
                        TransmissionInspectorState {
                            transmission_id: (inspector.transmission_id - 1) as usize,
                            time,
                            ..inspector
                        },
                    )
                    &&& final(self).player is None
                } else {
                    *final(self) == *old(self)
                },
                _ => *final(self) == *old(self),
            },
            went_to_previous(*old(self), prev_start_time, *final(self)),
    {
        if let Some(inspector) = self.inspector_state {
            if inspector.transmission_id > 0 {
                if let Some(time) = prev_start_time {
                    self.inspector_state = Some(
                        TransmissionInspectorState {
                            transmission_id: inspector.transmission_id - 1,
                            time,
                            play_state: inspector.play_state,
                        },
                    );
                    self.player = None;
                }
            }
        }
    }

    /// Goes to a time in the transmission that is inspected.
    pub fn seek(&mut self, time: Double)
        ensures
            match old(self).inspector_state {
                Some(inspector) => {
                    &&& final(self).inspector_state == Some(
                        TransmissionInspectorState { time, ..inspector },
                    )
                    &&& final(self).player is None
                },
                None => *final(self) == *old(self),
            },
            went_to_time(*old(self), time, *final(self)),
    {
        if let Some(inspector) = self.inspector_state {
            self.inspector_state = Some(
                TransmissionInspectorState {
                    transmission_id: inspector.transmission_id,
                    time,
                    play_state: inspector.play_state,
                },
            );
            self.player = None;
        }
    }

    /// Goes to the start of the next transmission, or to the end of this one where there
    /// is none.
    pub fn next(&mut self, bounds: TransmissionBounds)
        requires
            old(self).inspector_state is Some ==> old(self).inspector_state->0.transmission_id
                < usize::MAX,
        ensures
            match old(self).inspector_state {
                Some(inspector) => {
                    &&& final(self).inspector_state == Some(
                        match bounds.next_start_time {
                            Some(time) => TransmissionInspectorState {
                                transmission_id: (inspector.transmission_id + 1) as usize,
                                time,
                                ..inspector
                            },
                            None => TransmissionInspectorState {
                                time: bounds.end_time,
                                ..inspector
                            },
                        },
                    )
                    &&& final(self).player is None
                },
                None => *final(self) == *old(self),
            },
            went_to_next(*old(self), bounds, *final(self)),
    {
        if let Some(inspector) = self.inspector_state {
            let (transmission_id, time): (usize, Double) = match bounds.next_start_time {
                Some(next_start_time) => (inspector.transmission_id + 1, next_start_time),
                None => (inspector.transmission_id, bounds.end_time),
            };
            self.inspector_state = Some(
                TransmissionInspectorState {
                    transmission_id,
                    time,
                    play_state: inspector.play_state,
                },
            );
            self.player = None;
        }
    }

    /// The play button was pressed.
    pub fn toggle_play(&mut self)
        ensures
            final(self).player == old(self).player,
            match old(self).inspector_state {
                Some(inspector) => final(self).inspector_state == Some(
                    TransmissionInspectorState {
                        play_state: if inspector.play_state is Play {
                            PlayState::Paused
                        } else {
                            PlayState::Play
                        },
                        ..inspector
                    },
                ),
                None => final(self).inspector_state is None,
            },
            play_was_toggled(*old(self), *final(self)),
    {
        if let Some(inspector) = self.inspector_state {
            let play_state: PlayState = match inspector.play_state {
                PlayState::Play => PlayState::Paused,
                _ => PlayState::Play,
            };
            self.inspector_state = Some(
                TransmissionInspectorState {
                    transmission_id: inspector.transmission_id,
                    time: inspector.time,
                    play_state,
                },
            );
        }
    }

    /// Stops inspecting.
    pub fn close(&mut self)
        ensures
            final(self).inspector_state is None,
            final(self).player is None,
    {
        self.inspector_state = None;
        self.player = None;
    }

    /// Which pieces of audio to hand over next. Where nothing was played, that begins with
    /// the piece `chunk_index`; it goes on where it ended the last time, and up to the
    /// piece `lookahead_index` or the end of the transmission.
    pub fn feed(
        &mut self,
        playing: bool,
        chunk_index: isize,
        lookahead_index: isize,
        end_index: isize,
    ) -> (range: Option<AudioRange>)
        ensures
            final(self).inspector_state == old(self).inspector_state,
            !playing ==> range is None && final(self).player is None,
            playing ==> {
                let fed = fed(old(self).player, chunk_index, lookahead_index, end_index);
                range == fed.0 && final(self).player == Some(fed.1)
            },
            was_fed(
                *old(self),
                playing,
                chunk_index,
                lookahead_index,
                end_index,
                *final(self),
                range,
            ),
    {
        if !playing {
            self.player = None;
            return None;
        }
        let start: isize = match self.player {
            Some(player) => player.next_seq_num,
            None => chunk_index,
        };
        let end: isize = if end_index < lookahead_index {
            end_index
        } else {
            lookahead_index
        };
        if end > start {
            self.player = Some(Player { next_seq_num: end });
            Some(AudioRange { start, end })
        } else {
            self.player = Some(Player { next_seq_num: start });
            None
        }
    }
}

/// The chunk of a transmission that is closest to an index.
pub fn closest_chunk(index: isize, start_index: isize, end_index: isize) -> (closest: isize)
    requires
        start_index < end_index,
    ensures
        start_index <= closest < end_index,
        closest == if index < start_index {
            start_index as int
        } else if index >= end_index {
            end_index - 1
        } else {
            index as int
        },
{
    if index < start_index {
        start_index
    } else if index >= end_index {
        end_index - 1
    } else {
        index
    }
}

/// How many samples to go from one that is plotted to the next one, so that about a
/// hundred are.
pub fn plot_stride(samples: usize) -> (stride: usize)
    ensures
        stride >= 1,
        stride == if samples <= 100 {
            1
        } else {
            samples / 100
        },
{
    if samples <= 100 {
        1
    } else {
        samples / 100
    }
}

/// Wherever the position is moved to, it stays within the transmission, unless the next
/// one follows.
pub proof fn position_stays_in_the_transmission(
    inspector: TransmissionInspectorState,
    moved_time: Double,
    bounds: TransmissionBounds,
)
    requires
        !bounds.start_time.is_nan(),
        !bounds.end_time.is_nan(),
        !bounds.end_time.below(bounds.start_time),
    ensures
        ({
            let after = advanced(inspector, moved_time, bounds);
            after.transmission_id == inspector.transmission_id ==> {
                ||| bounds.next_start_time is Some && after.time == bounds.next_start_time->0
                ||| !after.time.below(bounds.start_time) && !bounds.end_time.below(after.time)
            }
        }),
{
}

/// What is handed over while nothing is sought follows on what was handed over before,
/// with nothing left out and nothing repeated.
pub proof fn audio_follows_on(
    player: Option<Player>,
    chunk_index: isize,
    lookahead_index: isize,
    end_index: isize,
    later_chunk_index: isize,
    later_lookahead_index: isize,
    later_end_index: isize,
)
    ensures
        ({
            let first = fed(player, chunk_index, lookahead_index, end_index);
            let second = fed(
                Some(first.1),
                later_chunk_index,
                later_lookahead_index,
                later_end_index,
            );
            first.0 is Some && second.0 is Some ==> second.0->0.start == first.0->0.end
        }),
{
}

/// The position moves only where something is played, and to where it is moved as long as that
/// lies within the transmission. It never lies outside of it: a position before the start is put
/// at the start, and one after the end at the end, unless the transmission is played and another
/// one follows, which is then gone on with from its start. Whether something is played does not
/// change by that.
pub proof fn positions_stay_within_transmissions(
    inspector: TransmissionInspectorState,
    moved_time: Double,
    bounds: TransmissionBounds,
)
    requires
        inspector.transmission_id < usize::MAX,
        !bounds.start_time.is_nan() && !bounds.end_time.is_nan(),
        !bounds.end_time.below(bounds.start_time),
    ensures
        ({
            let after = advanced(inspector, moved_time, bounds);
            let reached = if inspector.play_state is Paused {
                inspector.time
            } else {
                moved_time
            };
            let goes_on = inspector.play_state is Play && bounds.next_start_time is Some
                && bounds.end_time.below(moved_time);
            &&& after.play_state == inspector.play_state
            &&& goes_on ==> {
                &&& after.transmission_id == inspector.transmission_id + 1
                &&& Some(after.time) == bounds.next_start_time
            }
            &&& !goes_on ==> {
                &&& after.transmission_id == inspector.transmission_id
                &&& !after.time.below(bounds.start_time)
                &&& !bounds.end_time.below(after.time)
                &&& !reached.below(bounds.start_time) && !bounds.end_time.below(reached)
                    ==> after.time == reached
                &&& reached.below(bounds.start_time) ==> after.time == bounds.start_time
                &&& bounds.end_time.below(reached) ==> after.time == bounds.end_time
            }
        }),
{
}

/// What is played runs out exactly where it is played for good and has come past its end.
pub proof fn playing_runs_out_at_the_end(
    inspector: TransmissionInspectorState,
    moved_time: Double,
    bounds: TransmissionBounds,
)
    ensures
        ran_out(inspector, moved_time, bounds) ==> bounds.end_time.below(moved_time) && !(
        inspector.play_state is Paused) && !(inspector.play_state is PlayTemp),
        !bounds.end_time.below(moved_time) ==> !ran_out(inspector, moved_time, bounds),
        inspector.play_state is Play && bounds.end_time.below(moved_time) ==> ran_out(
            inspector,
            moved_time,
            bounds,
        ),
{
}

/// Audio is handed over without gaps and without repeating anything: what is handed over first
/// begins at the position, and each time it begins where it ended the last time. Nothing beyond
/// the lookahead or the end of the transmission is handed over, and everything up to there is.
pub proof fn audio_is_handed_over_in_order(
    player: Option<Player>,
    chunk_index: isize,
    lookahead_index: isize,
    end_index: isize,
)
    ensures
        ({
            let (range, after) = fed(player, chunk_index, lookahead_index, end_index);
            let start = if player is Some {
                player->0.next_seq_num
            } else {
                chunk_index
            };
            &&& range is Some <==> start < lookahead_index && start < end_index
            &&& range matches Some(range) ==> {
                &&& range.start == start
                &&& range.end <= lookahead_index && range.end <= end_index
                &&& range.end == lookahead_index || range.end == end_index
                &&& after.next_seq_num == range.end
            }
            &&& range is None ==> after.next_seq_num == start
        }),
{
}

/// Whether a transmission is inspected from a time on.
pub open spec fn is_inspected(
    before: FmUi,
    transmission_id: TransmissionId,
    time: Double,
    after: FmUi,
) -> bool {
    &&& after.player is None
    &&& after.inspector_state == Some(
        TransmissionInspectorState {
            transmission_id,
            time,
            play_state: if before.inspector_state is Some
                && before.inspector_state->0.play_state is Play {
                PlayState::Play
            } else {
                PlayState::PlayTemp { seek_on_release: time }
            },
        },
    )
}

/// Whether what was played only for a moment has stopped.
pub open spec fn was_released(before: FmUi, after: FmUi) -> bool {
    match before.inspector_state {
        Some(inspector) => match inspector.play_state {
            PlayState::PlayTemp { seek_on_release } => {
                &&& after.inspector_state == Some(
                    TransmissionInspectorState {
                        time: seek_on_release,
                        play_state: PlayState::Paused,
                        ..inspector
                    },
                )
                &&& after.player is None
            },
            _ => after == before,
        },
        None => after == before,
    }
}

/// What is played for a moment, while something is held, stops when that is let go, and the
/// position is then where it was. What is played otherwise goes on.
pub proof fn holding_plays_for_a_moment(
    before: FmUi,
    transmission_id: TransmissionId,
    time: Double,
    held: FmUi,
    later: FmUi,
    after: FmUi,
)
    requires
        is_inspected(before, transmission_id, time, held),
        held.inspector_state is Some && later.inspector_state is Some
            ==> held.inspector_state->0.play_state == later.inspector_state->0.play_state,
        later.inspector_state is Some,
        was_released(later, after),
    ensures
        held.inspector_state is Some && held.player is None,
        held.inspector_state->0.transmission_id == transmission_id,
        held.inspector_state->0.time == time,
        !(held.inspector_state->0.play_state is Paused),
        after.inspector_state is Some,
        after.inspector_state->0.transmission_id == later.inspector_state->0.transmission_id,
        before.inspector_state is Some && before.inspector_state->0.play_state is Play ==> after
            == later && after.inspector_state->0.play_state is Play,
        before.inspector_state is None || !(before.inspector_state->0.play_state is Play) ==> {
            &&& after.inspector_state->0.play_state is Paused
            &&& after.inspector_state->0.time == time
            &&& after.player is None
        },
{
}

/// Whether the position was moved on.
pub open spec fn went_on(
    before: FmUi,
    moved_time: Double,
    bounds: Option<TransmissionBounds>,
    after: FmUi,
    playing: bool,
) -> bool {
    &&& before.inspector_state is None || bounds is None ==> {
        &&& after.inspector_state is None
        &&& after.player is None
        &&& !playing
    }
    &&& before.inspector_state is Some && bounds is Some ==> {
        let inspector = before.inspector_state->0;
        let follows = ran_out(inspector, moved_time, bounds->0)
            && bounds->0.next_start_time is Some;
        &&& after.inspector_state == Some(advanced(inspector, moved_time, bounds->0))
        &&& after.player == if follows {
            None
        } else {
            before.player
        }
        &&& playing == (!(inspector.play_state is Paused) && (follows || !ran_out(
            inspector,
            moved_time,
            bounds->0,
        )))
    }
}

/// Nothing is played while playing is paused, and nothing once a transmission has run out and none
/// follows it. Where one follows, playing goes on with it from its start. A transmission that is
/// gone is no longer inspected.
pub proof fn playing_goes_on_with_what_follows(
    before: FmUi,
    moved_time: Double,
    bounds: Option<TransmissionBounds>,
    after: FmUi,
    playing: bool,
)
    requires
        went_on(before, moved_time, bounds, after, playing),
        before.inspector_state is Some ==> before.inspector_state->0.transmission_id < usize::MAX,
    ensures
        bounds is None || before.inspector_state is None ==> after.inspector_state is None
            && after.player is None && !playing,
        before.inspector_state is Some && before.inspector_state->0.play_state is Paused ==> !playing,
        before.inspector_state is Some && bounds is Some ==> {
            let was = before.inspector_state->0;
            let now = after.inspector_state->0;
            let ended = was.play_state is Play && bounds->0.end_time.below(moved_time);
            &&& after.inspector_state is Some
            &&& now.play_state == was.play_state
            &&& ended && bounds->0.next_start_time is None ==> !playing && now.time
                == bounds->0.end_time && now.transmission_id == was.transmission_id
            &&& ended && bounds->0.next_start_time is Some ==> {
                &&& playing
                &&& now.transmission_id == was.transmission_id + 1
                &&& now.time == bounds->0.next_start_time->0
                &&& after.player is None
            }
            &&& !ended ==> now.transmission_id == was.transmission_id && after.player
                == before.player
            &&& !ended && !(was.play_state is Paused) ==> playing
        },
{
}

/// Whether the transmission before was gone to.
pub open spec fn went_to_previous(before: FmUi, start_time: Option<Double>, after: FmUi) -> bool {
    match (before.inspector_state, start_time) {
        (Some(inspector), Some(time)) => if inspector.transmission_id > 0 {
            &&& after.inspector_state == Some(
                TransmissionInspectorState {
                    transmission_id: (inspector.transmission_id - 1) as usize,
                    time,
                    ..inspector
                },
            )
            &&& after.player is None
        } else {
            after == before
        },
        _ => after == before,
    }
}

/// Whether the transmission that follows was gone to, or the end of the last one.
pub open spec fn went_to_next(before: FmUi, bounds: TransmissionBounds, after: FmUi) -> bool {
    match before.inspector_state {
        Some(inspector) => {
            &&& after.inspector_state == Some(
                match bounds.next_start_time {
                    Some(time) => TransmissionInspectorState {
                        transmission_id: (inspector.transmission_id + 1) as usize,
                        time,
                        ..inspector
                    },
                    None => TransmissionInspectorState { time: bounds.end_time, ..inspector },
                },
            )
            &&& after.player is None
        },
        None => after == before,
    }
}

/// Whether a time in the transmission was gone to.
pub open spec fn went_to_time(before: FmUi, time: Double, after: FmUi) -> bool {
    match before.inspector_state {
        Some(inspector) => {
            &&& after.inspector_state == Some(TransmissionInspectorState { time, ..inspector })
            &&& after.player is None
        },
        None => after == before,
    }
}

/// Whether playing was started or paused.
pub open spec fn play_was_toggled(before: FmUi, after: FmUi) -> bool {
    &&& after.player == before.player
    &&& match before.inspector_state {
        Some(inspector) => after.inspector_state == Some(
            TransmissionInspectorState {
                play_state: if inspector.play_state is Play {
                    PlayState::Paused
                } else {
                    PlayState::Play
                },
                ..inspector
            },
        ),
        None => after.inspector_state is None,
    }
}

/// Going to another place starts the player anew there and leaves it playing or paused as it was.
/// Going back from the transmission that follows leads to the one that was left.
pub proof fn going_to_a_place_starts_the_player_anew(
    before: FmUi,
    bounds: TransmissionBounds,
    next: FmUi,
    start_time: Double,
    back: FmUi,
    time: Double,
    sought: FmUi,
)
    requires
        before.inspector_state is Some,
        before.inspector_state->0.transmission_id < usize::MAX,
        went_to_next(before, bounds, next),
        went_to_previous(next, Some(start_time), back),
        went_to_time(before, time, sought),
    ensures
        next.inspector_state is Some && next.player is None,
        next.inspector_state->0.play_state == before.inspector_state->0.play_state,
        bounds.next_start_time matches Some(start) ==> {
            &&& next.inspector_state->0.transmission_id == before.inspector_state->0.transmission_id
                + 1
            &&& next.inspector_state->0.time == start
            &&& back.inspector_state is Some && back.player is None
            &&& back.inspector_state->0.transmission_id == before.inspector_state->0.transmission_id
            &&& back.inspector_state->0.time == start_time
            &&& back.inspector_state->0.play_state == before.inspector_state->0.play_state
        },
        bounds.next_start_time is None ==> next.inspector_state->0.transmission_id
            == before.inspector_state->0.transmission_id && next.inspector_state->0.time
            == bounds.end_time,
        sought.inspector_state is Some && sought.player is None,
        sought.inspector_state->0.transmission_id == before.inspector_state->0.transmission_id,
        sought.inspector_state->0.time == time,
        sought.inspector_state->0.play_state == before.inspector_state->0.play_state,
{
}

/// The first transmission has none before it, and nothing is gone to where none is inspected.
pub proof fn there_is_nothing_before_the_first(
    before: FmUi,
    start_time: Option<Double>,
    bounds: TransmissionBounds,
    time: Double,
    previous: FmUi,
    next: FmUi,
    sought: FmUi,
    toggled: FmUi,
)
    requires
        went_to_previous(before, start_time, previous),
        went_to_next(before, bounds, next),
        went_to_time(before, time, sought),
        play_was_toggled(before, toggled),
    ensures
        start_time is None ==> previous == before,
        before.inspector_state is None ==> previous == before && next == before && sought == before
            && toggled.inspector_state is None,
        before.inspector_state is Some && before.inspector_state->0.transmission_id == 0
            ==> previous == before,
        toggled.player == before.player,
        before.inspector_state is Some ==> {
            &&& toggled.inspector_state is Some
            &&& toggled.inspector_state->0.play_state is Play <==> !(
            before.inspector_state->0.play_state is Play)
            &&& before.inspector_state->0.play_state is Play
                ==> toggled.inspector_state->0.play_state is Paused
            &&& toggled.inspector_state->0.transmission_id
                == before.inspector_state->0.transmission_id
            &&& toggled.inspector_state->0.time == before.inspector_state->0.time
        },
{
}

/// Whether audio was handed out, where something is played.
pub open spec fn was_fed(
    before: FmUi,
    playing: bool,
    chunk_index: isize,
    lookahead_index: isize,
    end_index: isize,
    after: FmUi,
    range: Option<AudioRange>,
) -> bool {
    &&& after.inspector_state == before.inspector_state
    &&& !playing ==> range is None && after.player is None
    &&& playing ==> {
        let fed = fed(before.player, chunk_index, lookahead_index, end_index);
        range == fed.0 && after.player == Some(fed.1)
    }
}

/// Nothing is handed out while nothing is played, and the player then starts anew. While something
/// is played, what is handed out begins where the last one ended, or at the position where there
/// was none, and reaches as far as is looked ahead and there is.
pub proof fn audio_is_handed_out_while_playing(
    before: FmUi,
    playing: bool,
    chunk_index: isize,
    lookahead_index: isize,
    end_index: isize,
    after: FmUi,
    range: Option<AudioRange>,
)
    requires
        was_fed(before, playing, chunk_index, lookahead_index, end_index, after, range),
    ensures
        after.inspector_state == before.inspector_state,
        !playing ==> range is None && after.player is None,
        playing ==> after.player is Some,
        range matches Some(audio) ==> {
            &&& playing
            &&& audio.start < audio.end
            &&& audio.end <= lookahead_index && audio.end <= end_index
            &&& audio.end == lookahead_index || audio.end == end_index
            &&& before.player matches Some(player) ==> audio.start == player.next_seq_num
            &&& before.player is None ==> audio.start == chunk_index
            &&& after.player->0.next_seq_num == audio.end
        },
        playing && range is None && before.player is Some ==> after.player->0.next_seq_num
            == before.player->0.next_seq_num,
        playing && range is None && before.player is None ==> after.player->0.next_seq_num
            == chunk_index && (lookahead_index <= chunk_index || end_index <= chunk_index),
{
}

} // verus!
