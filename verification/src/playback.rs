//! Playback state shared through the controller, and the audio engine's
//! state machine.
//!
//! The engine is modelled as a pure machine: every operation mutates the
//! engine's record and returns the sink actions to perform and the events to
//! emit. The host executes the actions against the real audio device and
//! feeds outcomes (a load that failed, the sink's position at a tick) back
//! in. Volume is held in hundredths, clamped to `0..=100`.

use vstd::prelude::*;

use crate::errors::AudioError;
use crate::metadata::Metadata;
use crate::metadata::Thumbnail;

verus! {

/// The engine's three-state machine: `Stopped -> Playing <-> Paused ->
/// Stopped`; a successful load forces any state to `Playing`.
#[derive(Clone, Copy, Debug, PartialEq, Eq, Structural)]
pub enum PlaybackStatus {
    Stopped,
    Playing,
    Paused,
}

/// The engine's externally visible snapshot: what is loaded, the machine
/// state, the playhead, and the volume settings.
#[derive(Clone, Debug)]
pub struct PlayerState {
    pub current: Option<String>,
    pub status: PlaybackStatus,
    pub position: u64,
    pub volume: u32,
    pub mute: bool,
    pub shuffling: bool,
    pub repeat: bool,
    pub meta: Option<Metadata>,
    pub thumbnail: Option<Thumbnail>,
}

/// Commands the engine accepts, in arrival order.
pub enum AudioCommand {
    Load(String),
    Play,
    Pause,
    Stop,
    SetVolume(u32),
    Mute,
    Seek(u64),
    Meta(Metadata),
}

/// Events the engine emits towards the controller.
#[derive(Clone, Debug)]
pub enum AudioEvent {
    TrackLoaded { path: String, size: u64, modified: u64 },
    TrackEnded,
    Position(u64),
    StateChanged(PlayerState),
    Error(AudioError),
}

/// Sink operations for the host to perform; the engine itself never touches
/// the audio device.
#[derive(Clone, Debug)]
pub enum AudioAction {
    StopSink,
    ResumeSink,
    PauseSink,
    SetSinkVolume(u32),
    OpenAndPlay(String),
    TrySeek(u64),
}

/// The highest volume setting: hundredths of full scale.
pub const VOLUME_MAX: u32 = 100;

/// The audio engine: its snapshot plus the one-shot end-of-track latch. The
/// latch arms once per load, so a track's natural end is reported exactly
/// once however many ticks follow it.
#[derive(Clone, Debug)]
pub struct AudioEngine {
    pub player_state: PlayerState,
    pub track_ended: bool,
}

impl PlayerState {
    /// The volume the sink should run at: the stored setting, or zero while
    /// muted (muting never alters the stored setting).
    pub open spec fn spec_effective_volume(self) -> u32 {
        if self.mute {
            0u32
        } else {
            self.volume
        }
    }

    /// The stored volume never exceeds full scale.
    pub open spec fn wf(self) -> bool {
        self.volume <= VOLUME_MAX
    }

    /// A fresh snapshot: nothing loaded, stopped, full volume.
    pub fn new() -> (r: PlayerState)
        ensures
            r.wf(),
            r.current is None,
            r.status == PlaybackStatus::Stopped,
            r.position == 0,
            r.volume == VOLUME_MAX,
            !r.mute,
            !r.shuffling,
            !r.repeat,
    {
        PlayerState {
            current: None,
            status: PlaybackStatus::Stopped,
            position: 0,
            volume: VOLUME_MAX,
            mute: false,
            shuffling: false,
            repeat: false,
            meta: None,
            thumbnail: None,
        }
    }

    /// The volume the sink should run at.
    pub fn effective_volume(&self) -> (r: u32)
        ensures
            r == self.spec_effective_volume(),
    {
        if self.mute {
            0
        } else {
            self.volume
        }
    }
}

impl AudioEngine {
    /// The engine's invariant: a well-formed snapshot.
    pub open spec fn wf(self) -> bool {
        self.player_state.wf()
    }

    /// A fresh engine: stopped, latch disarmed.
    pub fn new() -> (r: AudioEngine)
        ensures
            r.wf(),
            r.player_state.status == PlaybackStatus::Stopped,
            !r.track_ended,
    {
        AudioEngine { player_state: PlayerState::new(), track_ended: false }
    }

    /// Begin loading a track: stop the current output and ask the host to
    /// open the file. The machine drops to `Stopped` until the host reports
    /// the outcome; the latch re-arms for the new load.
    pub fn begin_load(&mut self, path: String) -> (actions: Vec<AudioAction>)
        requires
            old(self).wf(),
        ensures
            final(self).wf(),
            final(self).player_state.status == PlaybackStatus::Stopped,
            final(self).player_state.position == 0,
            !final(self).track_ended,
            final(self).player_state.current == old(self).player_state.current,
            final(self).player_state.volume == old(self).player_state.volume,
            final(self).player_state.mute == old(self).player_state.mute,
            actions@.len() == 2,
            actions@[0] matches AudioAction::StopSink,
            actions@[1] matches AudioAction::OpenAndPlay(p) && p@ == path@,
    {
        self.player_state.status = PlaybackStatus::Stopped;
        self.player_state.position = 0;
        self.track_ended = false;
        let mut actions: Vec<AudioAction> = Vec::new();
        actions.push(AudioAction::StopSink);
        actions.push(AudioAction::OpenAndPlay(path));
        actions
    }

    /// Take the host's report on a load. On success the new track is
    /// current, playback starts at position 0 under the stored volume, and
    /// `TrackLoaded` is emitted, then a snapshot. On failure the engine
    /// stays `Stopped` with the previous track untouched, one error event is
    /// emitted, and no `TrackLoaded` appears.
    pub fn finish_load(&mut self, path: String, size: u64, modified: u64, opened: bool) -> (r: (
        Vec<AudioAction>,
        Vec<AudioEvent>,
    ))
        requires
            old(self).wf(),
            old(self).player_state.status == PlaybackStatus::Stopped,
        ensures
            final(self).wf(),
            final(self).player_state.volume == old(self).player_state.volume,
            final(self).player_state.mute == old(self).player_state.mute,
            final(self).track_ended == old(self).track_ended,
            opened ==> {
                &&& final(self).player_state.status == PlaybackStatus::Playing
                &&& final(self).player_state.current matches Some(c) && c@ == path@
                &&& final(self).player_state.position == 0
                &&& r.0@.len() == 1
                &&& r.0@[0] matches AudioAction::SetSinkVolume(v) && v == old(self).player_state.spec_effective_volume()
                &&& r.1@.len() == 2
                &&& r.1@[0] matches AudioEvent::TrackLoaded { path: p, size: sz, modified: md }
                    && p@ == path@ && sz == size && md == modified
                &&& r.1@[1] matches AudioEvent::StateChanged(s) && s.status
                    == PlaybackStatus::Playing
            },
            !opened ==> {
                &&& final(self).player_state.status == PlaybackStatus::Stopped
                &&& final(self).player_state.current == old(self).player_state.current
                &&& r.0@.len() == 0
                &&& r.1@.len() == 1
                &&& r.1@[0] matches AudioEvent::Error(e) && e matches AudioError::LoadFile(p)
                    && p@ == path@
            },
            forall|i: int|
                0 <= i < r.1@.len() ==> !(opened == false && #[trigger] r.1@[i]
                    matches AudioEvent::TrackLoaded { .. }),
    {
        let mut actions: Vec<AudioAction> = Vec::new();
        let mut events: Vec<AudioEvent> = Vec::new();
        if opened {
            self.player_state.status = PlaybackStatus::Playing;
            self.player_state.position = 0;
            let snapshot_path = path.clone();
            assert(snapshot_path@ == path@);
            self.player_state.current = Some(snapshot_path);
            actions.push(AudioAction::SetSinkVolume(self.player_state.effective_volume()));
            events.push(AudioEvent::TrackLoaded { path, size, modified });
            events.push(AudioEvent::StateChanged(self.snapshot()));
        } else {
            events.push(AudioEvent::Error(AudioError::LoadFile(path)));
        }
        (actions, events)
    }

    /// `Play`: a no-op while already `Playing`; otherwise resume the sink
    /// and emit one snapshot.
    pub fn play(&mut self) -> (r: (Vec<AudioAction>, Vec<AudioEvent>))
        requires
            old(self).wf(),
        ensures
            final(self).wf(),
            final(self).track_ended == old(self).track_ended,
            final(self).player_state.status == PlaybackStatus::Playing,
            old(self).player_state.status == PlaybackStatus::Playing ==> *final(self) == *old(self)
                && r.0@.len() == 0 && r.1@.len() == 0,
            old(self).player_state.status != PlaybackStatus::Playing ==> {
                &&& r.0@.len() == 1
                &&& r.0@[0] matches AudioAction::ResumeSink
                &&& r.1@.len() == 1
                &&& r.1@[0] matches AudioEvent::StateChanged(s) && s.status
                    == PlaybackStatus::Playing
            },
    {
        let mut actions: Vec<AudioAction> = Vec::new();
        let mut events: Vec<AudioEvent> = Vec::new();
        if self.player_state.status != PlaybackStatus::Playing {
            self.player_state.status = PlaybackStatus::Playing;
            actions.push(AudioAction::ResumeSink);
            events.push(AudioEvent::StateChanged(self.snapshot()));
        }
        (actions, events)
    }

    /// `Pause`: a no-op unless `Playing`; otherwise pause the sink and emit
    /// one snapshot.
    pub fn pause(&mut self) -> (r: (Vec<AudioAction>, Vec<AudioEvent>))
        requires
            old(self).wf(),
        ensures
            final(self).wf(),
            old(self).player_state.status != PlaybackStatus::Playing ==> *final(self) == *old(self)
                && r.0@.len() == 0 && r.1@.len() == 0,
            old(self).player_state.status == PlaybackStatus::Playing ==> {
                &&& final(self).player_state.status == PlaybackStatus::Paused
                &&& r.0@.len() == 1
                &&& r.0@[0] matches AudioAction::PauseSink
                &&& r.1@.len() == 1
                &&& r.1@[0] matches AudioEvent::StateChanged(s) && s.status
                    == PlaybackStatus::Paused
            },
    {
        let mut actions: Vec<AudioAction> = Vec::new();
        let mut events: Vec<AudioEvent> = Vec::new();
        if self.player_state.status == PlaybackStatus::Playing {
            self.player_state.status = PlaybackStatus::Paused;
            actions.push(AudioAction::PauseSink);
            events.push(AudioEvent::StateChanged(self.snapshot()));
        }
        (actions, events)
    }

    /// `Stop`: stop the sink and emit one snapshot.
    pub fn stop(&mut self) -> (r: (Vec<AudioAction>, Vec<AudioEvent>))
        requires
            old(self).wf(),
        ensures
            final(self).wf(),
            final(self).player_state.status == PlaybackStatus::Stopped,
            final(self).player_state.volume == old(self).player_state.volume,
            r.0@.len() == 1,
            r.0@[0] matches AudioAction::StopSink,
            r.1@.len() == 1,
            r.1@[0] matches AudioEvent::StateChanged(s) && s.status == PlaybackStatus::Stopped,
    {
        self.player_state.status = PlaybackStatus::Stopped;
        let mut actions: Vec<AudioAction> = Vec::new();
        let mut events: Vec<AudioEvent> = Vec::new();
        actions.push(AudioAction::StopSink);
        events.push(AudioEvent::StateChanged(self.snapshot()));
        (actions, events)
    }

    /// `SetVolume`: clamp to full scale, apply at once (still zero while
    /// muted), and emit one snapshot.
    pub fn set_volume(&mut self, volume: u32) -> (r: (Vec<AudioAction>, Vec<AudioEvent>))
        requires
            old(self).wf(),
        ensures
            final(self).wf(),
            final(self).player_state.status == old(self).player_state.status,
            final(self).player_state.volume == if volume <= VOLUME_MAX {
                volume
            } else {
                VOLUME_MAX
            },
            final(self).player_state.mute == old(self).player_state.mute,
            r.0@.len() == 1,
            r.0@[0] matches AudioAction::SetSinkVolume(v) && v == final(self).player_state.spec_effective_volume(),
            r.1@.len() == 1,
            r.1@[0] matches AudioEvent::StateChanged(_),
    {
        self.player_state.volume = if volume <= VOLUME_MAX {
            volume
        } else {
            VOLUME_MAX
        };
        let mut actions: Vec<AudioAction> = Vec::new();
        let mut events: Vec<AudioEvent> = Vec::new();
        actions.push(AudioAction::SetSinkVolume(self.player_state.effective_volume()));
        events.push(AudioEvent::StateChanged(self.snapshot()));
        (actions, events)
    }

    /// `Mute`: toggle. Engaging forces the sink to zero without touching the
    /// stored volume; disengaging restores the stored volume.
    pub fn toggle_mute(&mut self) -> (r: (Vec<AudioAction>, Vec<AudioEvent>))
        requires
            old(self).wf(),
        ensures
            final(self).wf(),
            final(self).player_state.mute == !old(self).player_state.mute,
            final(self).player_state.volume == old(self).player_state.volume,
            final(self).player_state.status == old(self).player_state.status,
            r.0@.len() == 1,
            r.0@[0] matches AudioAction::SetSinkVolume(v) && v == final(self).player_state.spec_effective_volume(),
            r.1@.len() == 1,
            r.1@[0] matches AudioEvent::StateChanged(_),
    {
        self.player_state.mute = !self.player_state.mute;
        let mut actions: Vec<AudioAction> = Vec::new();
        let mut events: Vec<AudioEvent> = Vec::new();
        actions.push(AudioAction::SetSinkVolume(self.player_state.effective_volume()));
        events.push(AudioEvent::StateChanged(self.snapshot()));
        (actions, events)
    }

    /// Attach the loaded track's tag metadata (and its decoded cover art,
    /// if any) to the snapshot, and emit one snapshot.
    pub fn set_metadata(&mut self, meta: Metadata) -> (events: Vec<AudioEvent>)
        requires
            old(self).wf(),
        ensures
            final(self).wf(),
            final(self).player_state.status == old(self).player_state.status,
            final(self).player_state.volume == old(self).player_state.volume,
            final(self).player_state.current == old(self).player_state.current,
            final(self).track_ended == old(self).track_ended,
            final(self).player_state.meta matches Some(m) && m.same_tags(&meta),
            events@.len() == 1,
            events@[0] matches AudioEvent::StateChanged(_),
    {
        let ghost given = meta;
        self.player_state.meta = Some(meta);
        let mut events: Vec<AudioEvent> = Vec::new();
        events.push(AudioEvent::StateChanged(self.snapshot()));
        proof {
            assert(self.player_state.meta matches Some(m) && m.same_tags(&given));
        }
        events
    }

    /// `Seek`: hand the attempt to the host; the state does not move until
    /// the tick reads the real position back.
    pub fn seek(&self, pos: u64) -> (actions: Vec<AudioAction>)
        ensures
            actions@.len() == 1,
            actions@[0] matches AudioAction::TrySeek(p) && p == pos,
    {
        let mut actions: Vec<AudioAction> = Vec::new();
        actions.push(AudioAction::TrySeek(pos));
        actions
    }

    /// Take the host's report on a seek: a failure is reported as one
    /// recoverable error event and changes nothing else.
    pub fn on_seek_result(&mut self, pos: u64, ok: bool) -> (events: Vec<AudioEvent>)
        requires
            old(self).wf(),
        ensures
            final(self).wf(),
            *final(self) == *old(self),
            ok ==> events@.len() == 0,
            !ok ==> events@.len() == 1 && (events@[0] matches AudioEvent::Error(e) && e
                matches AudioError::Seek(p) && p == pos),
    {
        let mut events: Vec<AudioEvent> = Vec::new();
        if !ok {
            events.push(AudioEvent::Error(AudioError::Seek(pos)));
        }
        events
    }

    /// Whether a tick that sees `sink_empty` reports the track's natural
    /// end: only while playing, only when the sink has drained, and only if
    /// no tick of this load reported it before.
    pub open spec fn spec_tick_reports_end(self, sink_empty: bool) -> bool {
        &&& self.player_state.status == PlaybackStatus::Playing
        &&& sink_empty
        &&& !self.track_ended
    }

    /// The latch after a tick: armed as soon as a playing sink has drained,
    /// and never disarmed by a tick.
    pub open spec fn spec_tick_latch(self, sink_empty: bool) -> bool {
        self.track_ended || (self.player_state.status == PlaybackStatus::Playing && sink_empty)
    }

    /// The periodic tick. While `Playing`, the playhead follows the sink and
    /// a position event goes out; and the first tick that sees the sink
    /// drained emits `TrackEnded` — the latch then stays set, so later ticks
    /// of the same load emit nothing, however often the sink reports empty.
    pub fn tick(&mut self, sink_pos: u64, sink_empty: bool) -> (events: Vec<AudioEvent>)
        requires
            old(self).wf(),
        ensures
            final(self).wf(),
            final(self).player_state.status == old(self).player_state.status,
            final(self).player_state.volume == old(self).player_state.volume,
            final(self).player_state.current == old(self).player_state.current,
            final(self).track_ended == old(self).spec_tick_latch(sink_empty) || final(self).track_ended == old(self).track_ended,
            old(self).player_state.status != PlaybackStatus::Playing ==> *final(self) == *old(self)
                && events@.len() == 0,
            old(self).player_state.status == PlaybackStatus::Playing ==> {
                &&& final(self).player_state.position == sink_pos
                &&& final(self).track_ended == old(self).spec_tick_latch(sink_empty)
                &&& events@[0] matches AudioEvent::Position(p) && p == sink_pos
                &&& if old(self).spec_tick_reports_end(sink_empty) {
                    events@.len() == 2 && events@[1] matches AudioEvent::TrackEnded
                } else {
                    events@.len() == 1
                }
            },
    {
        let mut events: Vec<AudioEvent> = Vec::new();
        if self.player_state.status == PlaybackStatus::Playing {
            self.player_state.position = sink_pos;
            events.push(AudioEvent::Position(sink_pos));
            if sink_empty && !self.track_ended {
                self.track_ended = true;
                events.push(AudioEvent::TrackEnded);
            } else if sink_empty {
                self.track_ended = true;
            }
        }
        events
    }

    /// A copy of the engine's snapshot, for `StateChanged` events.
    pub fn snapshot(&self) -> (r: PlayerState)
        ensures
            r.status == self.player_state.status,
            r.position == self.player_state.position,
            r.volume == self.player_state.volume,
            r.mute == self.player_state.mute,
            r.shuffling == self.player_state.shuffling,
            r.repeat == self.player_state.repeat,
    {
        PlayerState {
            current: match &self.player_state.current {
                Some(p) => Some(p.clone()),
                None => None,
            },
            status: self.player_state.status,
            position: self.player_state.position,
            volume: self.player_state.volume,
            mute: self.player_state.mute,
            shuffling: self.player_state.shuffling,
            repeat: self.player_state.repeat,
            meta: None,
            thumbnail: None,
        }
    }
}

/// The end of a track is reported at most once per load: if one tick of a
/// playing engine reports it, the latch is armed afterwards, and no later
/// tick of the same load reports it again, whatever the sink says in
/// between.
pub proof fn lemma_track_end_reported_once(
    s0: AudioEngine,
    s1: AudioEngine,
    empty0: bool,
    empty1: bool,
)
    requires
        s0.player_state.status == PlaybackStatus::Playing,
        s1.track_ended == s0.spec_tick_latch(empty0),
        s0.spec_tick_reports_end(empty0),
    ensures
        !s1.spec_tick_reports_end(empty1),
{
}

} // verus!
