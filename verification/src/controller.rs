//! The controller: sole owner of the shared application state. It turns
//! user intents into engine and scanner commands, folds both actors' events
//! into the state, and never lets anything else write it.

use vstd::prelude::*;

use crate::playback::{AudioCommand, AudioEvent, PlaybackStatus};
use crate::playlist::{Playlist, PlaylistId};
use crate::queue::QueueState;
use crate::scanner::{ScannerCommand, ScannerEvent};
use crate::track::{Track, TrackId, gen_track_id, spec_track_id};

verus! {

/// Everything the session knows: the track table and the playlists.
/// Both grow monotonically; entries are added, never overwritten.
pub struct LibraryState {
    pub tracks: Vec<(TrackId, Track)>,
    pub playlists: Vec<(PlaylistId, Playlist)>,
}

/// The track stored under an identity, scanning from the front.
pub open spec fn spec_find_track(entries: Seq<(TrackId, Track)>, id: Seq<u8>) -> Option<Track>
    decreases entries.len(),
{
    if entries.len() == 0 {
        None
    } else if entries[0].0.0@ == id {
        Some(entries[0].1)
    } else {
        spec_find_track(entries.drop_first(), id)
    }
}

/// Whether the table already holds this identity.
pub open spec fn spec_has_track(entries: Seq<(TrackId, Track)>, id: Seq<u8>) -> bool {
    spec_find_track(entries, id) is Some
}

impl LibraryState {
    /// An empty library.
    pub fn new() -> (r: LibraryState)
        ensures
            r.tracks@.len() == 0,
            r.playlists@.len() == 0,
    {
        LibraryState { tracks: Vec::new(), playlists: Vec::new() }
    }

    /// Whether an identity is already indexed.
    pub fn contains_track(&self, id: &TrackId) -> (r: bool)
        ensures
            r == spec_has_track(self.tracks@, id.0@),
    {
        let mut i: usize = 0;
        assert(self.tracks@.skip(0) =~= self.tracks@);
        loop
            invariant
                i <= self.tracks@.len(),
                spec_find_track(self.tracks@, id.0@) == spec_find_track(
                    self.tracks@.skip(i as int),
                    id.0@,
                ),
            decreases self.tracks@.len() - i,
        {
            proof {
                if i < self.tracks@.len() {
                    assert(self.tracks@.skip(i as int)[0] == self.tracks@[i as int]);
                    assert(self.tracks@.skip(i as int).drop_first() =~= self.tracks@.skip(
                        i + 1 as int,
                    ));
                }
            }
            if i >= self.tracks.len() {
                proof {
                    assert(self.tracks@.skip(i as int).len() == 0);
                }
                return false;
            }
            if self.tracks[i].0 == *id {
                return true;
            }
            i = i + 1;
        }
    }

    /// The path of the track stored under an identity.
    pub fn track_path(&self, id: &TrackId) -> (r: Option<String>)
        ensures
            match r {
                Some(p) => spec_find_track(self.tracks@, id.0@) matches Some(t) && t.path@ == p@,
                None => spec_find_track(self.tracks@, id.0@) is None,
            },
    {
        let mut i: usize = 0;
        assert(self.tracks@.skip(0) =~= self.tracks@);
        loop
            invariant
                i <= self.tracks@.len(),
                spec_find_track(self.tracks@, id.0@) == spec_find_track(
                    self.tracks@.skip(i as int),
                    id.0@,
                ),
            decreases self.tracks@.len() - i,
        {
            proof {
                if i < self.tracks@.len() {
                    assert(self.tracks@.skip(i as int)[0] == self.tracks@[i as int]);
                    assert(self.tracks@.skip(i as int).drop_first() =~= self.tracks@.skip(
                        i + 1 as int,
                    ));
                }
            }
            if i >= self.tracks.len() {
                proof {
                    assert(self.tracks@.skip(i as int).len() == 0);
                }
                return None;
            }
            if self.tracks[i].0 == *id {
                return Some(self.tracks[i].1.path.clone());
            }
            i = i + 1;
        }
    }

    /// Index a track under its identity. Insert-only: an identity that is
    /// already present keeps the track it has.
    pub fn insert_track(&mut self, t: Track) -> (inserted: bool)
        ensures
            inserted == !spec_has_track(old(self).tracks@, t.id.0@),
            final(self).playlists@ == old(self).playlists@,
            inserted ==> final(self).tracks@ == old(self).tracks@.push((t.id, t)),
            !inserted ==> final(self).tracks@ == old(self).tracks@,
    {
        if self.contains_track(&t.id) {
            false
        } else {
            self.tracks.push((t.id, t));
            true
        }
    }

    /// Register a playlist under its identity.
    pub fn insert_playlist(&mut self, p: Playlist)
        ensures
            final(self).tracks@ == old(self).tracks@,
            final(self).playlists@ == old(self).playlists@.push((p.id, p)),
    {
        self.playlists.push((p.id, p));
    }
}

/// The controller-owned view of playback, updated only from engine events
/// and user commands.
pub struct PlaybackState {
    pub current: Option<TrackId>,
    pub current_playlist: Option<PlaylistId>,
    pub status: PlaybackStatus,
    pub position: u64,
    pub volume: u32,
    pub mute: bool,
    pub shuffling: bool,
    pub repeat: bool,
}

impl PlaybackState {
    /// The initial playback view: stopped, nothing current, full volume.
    pub fn new() -> (r: PlaybackState)
        ensures
            r.current is None,
            r.current_playlist is None,
            r.status == PlaybackStatus::Stopped,
            r.position == 0,
            r.volume == crate::playback::VOLUME_MAX,
            !r.mute,
            !r.shuffling,
            !r.repeat,
    {
        PlaybackState {
            current: None,
            current_playlist: None,
            status: PlaybackStatus::Stopped,
            position: 0,
            volume: crate::playback::VOLUME_MAX,
            mute: false,
            shuffling: false,
            repeat: false,
        }
    }
}

/// The single shared aggregate: playback, library, queue.
pub struct AppState {
    pub playback: PlaybackState,
    pub library: LibraryState,
    pub queue: QueueState,
}

impl AppState {
    /// The queue is always a well-formed permutation.
    pub open spec fn wf(self) -> bool {
        self.queue.wf()
    }

    /// The empty state a session starts from.
    pub fn new() -> (r: AppState)
        ensures
            r.wf(),
            r.playback.current is None,
            r.playback.status == PlaybackStatus::Stopped,
            r.library.tracks@.len() == 0,
            r.queue.spec_len() == 0,
    {
        AppState { playback: PlaybackState::new(), library: LibraryState::new(), queue: QueueState::new() }
    }
}

/// The controller. It owns the state; the host owns the channels.
pub struct Controller {
    pub state: AppState,
}

impl Controller {
    /// A controller over a fresh state.
    pub fn new() -> (r: Controller)
        ensures
            r.state.wf(),
            r.state.playback.status == PlaybackStatus::Stopped,
    {
        Controller { state: AppState::new() }
    }

    /// Fold one engine event into the state. A loaded track becomes
    /// current by its content identity; if the library does not know it
    /// yet, the scanner is asked for its metadata — that request is the
    /// only command this handler ever issues.
    pub fn handle_audio_event(&mut self, event: &AudioEvent) -> (cmds: Vec<ScannerCommand>)
        requires
            old(self).state.wf(),
        ensures
            final(self).state.wf(),
            final(self).state.queue.tracks@ == old(self).state.queue.tracks@,
            final(self).state.queue.order@ == old(self).state.queue.order@,
            final(self).state.queue.index == old(self).state.queue.index,
            final(self).state.library.tracks@ == old(self).state.library.tracks@,
            final(self).state.library.playlists@ == old(self).state.library.playlists@,
            final(self).state.playback.current_playlist == old(
                self,
            ).state.playback.current_playlist,
            final(self).state.playback.volume == old(self).state.playback.volume,
            final(self).state.playback.mute == old(self).state.playback.mute,
            final(self).state.playback.shuffling == old(self).state.playback.shuffling,
            final(self).state.playback.repeat == old(self).state.playback.repeat,
            match event {
                AudioEvent::Position(pos) => {
                    &&& final(self).state.playback.position == pos
                    &&& final(self).state.playback.current == old(self).state.playback.current
                    &&& final(self).state.playback.status == old(self).state.playback.status
                    &&& cmds@.len() == 0
                },
                AudioEvent::TrackLoaded { path, size, modified } => {
                    &&& final(self).state.playback.current matches Some(id) && id.0@
                        == spec_track_id(path@, *size, *modified)
                    &&& final(self).state.playback.status == old(self).state.playback.status
                    &&& final(self).state.playback.position == old(self).state.playback.position
                    &&& if spec_has_track(
                        old(self).state.library.tracks@,
                        spec_track_id(path@, *size, *modified),
                    ) {
                        cmds@.len() == 0
                    } else {
                        cmds@.len() == 1 && (cmds@[0] matches ScannerCommand::GetTrackMetadata {
                            path: p,
                            track_id,
                        } && p@ == path@ && track_id.0@ == spec_track_id(path@, *size, *modified))
                    }
                },
                AudioEvent::StateChanged(s) => {
                    &&& final(self).state.playback.status == s.status
                    &&& final(self).state.playback.position == s.position
                    &&& final(self).state.playback.current == old(self).state.playback.current
                    &&& cmds@.len() == 0
                },
                _ => {
                    &&& *final(self) == *old(self)
                    &&& cmds@.len() == 0
                },
            },
    {
        let mut cmds: Vec<ScannerCommand> = Vec::new();
        match event {
            AudioEvent::Position(pos) => {
                self.state.playback.position = *pos;
            },
            AudioEvent::TrackLoaded { path, size, modified } => {
                let track_id = gen_track_id(path.as_str(), *size, *modified);
                if !self.state.library.contains_track(&track_id) {
                    cmds.push(
                        ScannerCommand::GetTrackMetadata { path: path.clone(), track_id },
                    );
                }
                self.state.playback.current = Some(track_id);
            },
            AudioEvent::StateChanged(s) => {
                self.state.playback.status = s.status;
                self.state.playback.position = s.position;
            },
            _ => {},
        }
        cmds
    }

    /// Fold one scanner event into the state. New tracks merge insert-only;
    /// a finished playlist becomes current, and the queue resets to the
    /// identity permutation over its tracks.
    pub fn handle_scanner_event(&mut self, event: ScannerEvent)
        requires
            old(self).state.wf(),
        ensures
            final(self).state.wf(),
            match event {
                ScannerEvent::Playlist(p) => {
                    &&& final(self).state.playback.current_playlist == Some(p.id)
                    &&& final(self).state.library.playlists@ == old(
                        self,
                    ).state.library.playlists@.push((p.id, p))
                    &&& final(self).state.library.tracks@ == old(self).state.library.tracks@
                    &&& final(self).state.queue.tracks@ == p.tracks@
                    &&& final(self).state.queue.order@ == crate::queue::identity_order(
                        p.tracks@.len(),
                    )
                    &&& final(self).state.queue.index == 0
                    &&& final(self).state.playback.current == old(self).state.playback.current
                    &&& final(self).state.playback.status == old(self).state.playback.status
                    &&& final(self).state.playback.position == old(self).state.playback.position
                    &&& final(self).state.playback.volume == old(self).state.playback.volume
                    &&& final(self).state.playback.mute == old(self).state.playback.mute
                    &&& final(self).state.playback.shuffling == old(self).state.playback.shuffling
                    &&& final(self).state.playback.repeat == old(self).state.playback.repeat
                },
                ScannerEvent::TrackMetadata { track_id, .. } => {
                    &&& spec_has_track(final(self).state.library.tracks@, track_id.0@)
                    &&& final(self).state.queue == old(self).state.queue
                    &&& final(self).state.library.playlists@ == old(self).state.library.playlists@
                    &&& final(self).state.playback == old(self).state.playback
                    &&& forall|id: Seq<u8>|
                        spec_has_track(old(self).state.library.tracks@, id)
                            ==> #[trigger] spec_find_track(final(self).state.library.tracks@, id)
                            == spec_find_track(old(self).state.library.tracks@, id)
                },
                ScannerEvent::Tracks(list) => {
                    &&& final(self).state.queue == old(self).state.queue
                    &&& final(self).state.library.playlists@ == old(self).state.library.playlists@
                    &&& final(self).state.playback == old(self).state.playback
                    &&& forall|id: Seq<u8>|
                        spec_has_track(old(self).state.library.tracks@, id)
                            ==> #[trigger] spec_find_track(final(self).state.library.tracks@, id)
                            == spec_find_track(old(self).state.library.tracks@, id)
                    &&& merge_processed_claim(
                        old(self).state.library.tracks@,
                        final(self).state.library.tracks@,
                        list@,
                        list@.len() as int,
                    )
                },
                ScannerEvent::Thumbnail { .. } => *final(self) == *old(self),
            },
    {
        match event {
            ScannerEvent::Tracks(tracks) => {
                let mut i: usize = 0;
                while i < tracks.len()
                    invariant
                        old(self).state.wf(),
                        self.state.queue == old(self).state.queue,
                        self.state.library.playlists@ == old(self).state.library.playlists@,
                        self.state.playback == old(self).state.playback,
                        i <= tracks@.len(),
                        forall|id: Seq<u8>|
                            spec_has_track(old(self).state.library.tracks@, id)
                                ==> #[trigger] spec_find_track(self.state.library.tracks@, id)
                                == spec_find_track(old(self).state.library.tracks@, id),
                        merge_added_claim(
                            old(self).state.library.tracks@,
                            self.state.library.tracks@,
                            tracks@,
                        ),
                        merge_processed_claim(
                            old(self).state.library.tracks@,
                            self.state.library.tracks@,
                            tracks@,
                            i as int,
                        ),
                    decreases tracks@.len() - i,
                {
                    let t = clone_track(&tracks[i]);
                    let ghost t_ghost = t;
                    let ghost before = self.state.library.tracks@;
                    let inserted = self.state.library.insert_track(t);
                    proof {
                        lemma_tracks_merge_step(
                            old(self).state.library.tracks@,
                            before,
                            self.state.library.tracks@,
                            tracks@,
                            i as int,
                            t_ghost,
                            inserted,
                        );
                    }
                    i = i + 1;
                }
            },
            ScannerEvent::Playlist(p) => {
                let tracks_copy = clone_ids(&p.tracks);
                self.state.playback.current_playlist = Some(p.id);
                self.state.library.insert_playlist(p);
                self.state.queue.reset(tracks_copy);
            },
            ScannerEvent::TrackMetadata {
                path,
                track_id,
                title,
                artist,
                album,
                duration,
                size,
                modified,
            } => {
                let t = Track { id: track_id, path, title, artist, album, duration, size, modified };
                let ghost t_ghost = t;
                let ghost before = self.state.library.tracks@;
                let inserted = self.state.library.insert_track(t);
                proof {
                    if inserted {
                        lemma_find_after_push(before, track_id, t_ghost);
                        assert forall|id: Seq<u8>| spec_has_track(before, id) implies #[trigger] spec_find_track(
                            self.state.library.tracks@,
                            id,
                        ) == spec_find_track(before, id) by {
                            lemma_push_keeps_existing(before, (t_ghost.id, t_ghost), id);
                        }
                    }
                }
            },
            ScannerEvent::Thumbnail { .. } => {},
        }
    }

    /// Step to the next queue entry and name the track to load, if the
    /// position moved. Wraps only while repeat is on; at the queue's end
    /// with repeat off, nothing moves and nothing loads.
    pub fn next(&mut self) -> (r: Option<AudioCommand>)
        requires
            old(self).state.wf(),
        ensures
            final(self).state.wf(),
            final(self).state.queue.tracks@ == old(self).state.queue.tracks@,
            final(self).state.queue.order@ == old(self).state.queue.order@,
            old(self).state.queue.spec_len() == 0 ==> r is None && final(self).state.queue.index
                == old(self).state.queue.index,
            old(self).state.queue.spec_len() > 0 ==> final(self).state.queue.index == {
                if ((old(self).state.queue.index + 1) as nat) < old(self).state.queue.spec_len() {
                    (old(self).state.queue.index + 1) as usize
                } else if old(self).state.playback.repeat {
                    0usize
                } else {
                    old(self).state.queue.index
                }
            },
            final(self).state.library.tracks@ == old(self).state.library.tracks@,
            final(self).state.playback == old(self).state.playback,
            old(self).state.queue.spec_len() > 0 && (((old(self).state.queue.index + 1) as nat)
                < old(self).state.queue.spec_len() || old(self).state.playback.repeat)
                ==> match spec_find_track(
                final(self).state.library.tracks@,
                final(self).state.queue.tracks@[final(self).state.queue.spec_real_index() as int].0@,
            ) {
                Some(t) => r matches Some(c) && c matches AudioCommand::Load(p) && p@ == t.path@,
                None => r is None,
            },
            r matches Some(c) ==> {
                &&& c matches AudioCommand::Load(p)
                &&& spec_find_track(
                    final(self).state.library.tracks@,
                    final(self).state.queue.tracks@[final(self).state.queue.spec_real_index() as int].0@,
                ) matches Some(t) && t.path@ == p@
            },
    {
        let repeat = self.state.playback.repeat;
        let moved = self.state.queue.next(repeat);
        if !moved {
            return None;
        }
        self.load_current()
    }

    /// Step to the previous queue entry and name the track to load, if the
    /// position moved.
    pub fn prev(&mut self) -> (r: Option<AudioCommand>)
        requires
            old(self).state.wf(),
        ensures
            final(self).state.wf(),
            final(self).state.queue.tracks@ == old(self).state.queue.tracks@,
            final(self).state.queue.order@ == old(self).state.queue.order@,
            old(self).state.queue.spec_len() == 0 ==> r is None && final(self).state.queue.index
                == old(self).state.queue.index,
            old(self).state.queue.spec_len() > 0 ==> final(self).state.queue.index == {
                if old(self).state.queue.index > 0 {
                    (old(self).state.queue.index - 1) as usize
                } else if old(self).state.playback.repeat {
                    (old(self).state.queue.spec_len() - 1) as usize
                } else {
                    old(self).state.queue.index
                }
            },
            final(self).state.library.tracks@ == old(self).state.library.tracks@,
            final(self).state.playback == old(self).state.playback,
            old(self).state.queue.spec_len() > 0 && (old(self).state.queue.index > 0 || old(
                self,
            ).state.playback.repeat) ==> match spec_find_track(
                final(self).state.library.tracks@,
                final(self).state.queue.tracks@[final(self).state.queue.spec_real_index() as int].0@,
            ) {
                Some(t) => r matches Some(c) && c matches AudioCommand::Load(p) && p@ == t.path@,
                None => r is None,
            },
            r matches Some(c) ==> {
                &&& c matches AudioCommand::Load(p)
                &&& spec_find_track(
                    final(self).state.library.tracks@,
                    final(self).state.queue.tracks@[final(self).state.queue.spec_real_index() as int].0@,
                ) matches Some(t) && t.path@ == p@
            },
    {
        let repeat = self.state.playback.repeat;
        let moved = self.state.queue.prev(repeat);
        if !moved {
            return None;
        }
        self.load_current()
    }

    /// The load command for the entry the queue stands on: the load is owed
    /// exactly when the queue is not empty and the library knows the track
    /// the queue names, and it carries that track's path.
    pub fn load_current(&self) -> (r: Option<AudioCommand>)
        requires
            self.state.wf(),
        ensures
            self.state.queue.spec_len() == 0 ==> r is None,
            self.state.queue.spec_len() > 0 ==> match spec_find_track(
                self.state.library.tracks@,
                self.state.queue.tracks@[self.state.queue.spec_real_index() as int].0@,
            ) {
                Some(t) => r matches Some(c) && c matches AudioCommand::Load(p) && p@ == t.path@,
                None => r is None,
            },
    {
        match self.state.queue.current() {
            Some(pos) => {
                let id = self.state.queue.tracks[pos];
                match self.state.library.track_path(&id) {
                    Some(p) => Some(AudioCommand::Load(p)),
                    None => None,
                }
            },
            None => None,
        }
    }

    /// Toggle shuffle. Turning it on draws a random permutation and keeps
    /// the playing track first; turning it off restores the identity
    /// permutation with the playhead still on the same track. Either way
    /// the queue remains a permutation of the playlist, at every length.
    pub fn set_shuffle(&mut self)
        requires
            old(self).state.wf(),
        ensures
            final(self).state.wf(),
            final(self).state.playback.shuffling == !old(self).state.playback.shuffling,
            final(self).state.playback.current == old(self).state.playback.current,
            final(self).state.playback.current_playlist == old(
                self,
            ).state.playback.current_playlist,
            final(self).state.playback.status == old(self).state.playback.status,
            final(self).state.playback.position == old(self).state.playback.position,
            final(self).state.playback.volume == old(self).state.playback.volume,
            final(self).state.playback.mute == old(self).state.playback.mute,
            final(self).state.playback.repeat == old(self).state.playback.repeat,
            final(self).state.library.tracks@ == old(self).state.library.tracks@,
            final(self).state.library.playlists@ == old(self).state.library.playlists@,
            final(self).state.queue.tracks@ == old(self).state.queue.tracks@,
            old(self).state.queue.spec_len() > 0 ==> final(self).state.queue.spec_real_index()
                == old(self).state.queue.spec_real_index(),
            !old(self).state.playback.shuffling ==> final(self).state.queue.index == 0 && (old(
                self,
            ).state.queue.spec_len() > 0 ==> final(self).state.queue.order@[0] == old(
                self,
            ).state.queue.spec_real_index()),
            old(self).state.playback.shuffling ==> {
                &&& final(self).state.queue.order@ == crate::queue::identity_order(
                    old(self).state.queue.spec_len(),
                )
                &&& old(self).state.queue.spec_len() > 0 ==> final(self).state.queue.index == old(
                    self,
                ).state.queue.spec_real_index()
            },
    {
        self.state.playback.shuffling = !self.state.playback.shuffling;
        if self.state.playback.shuffling {
            self.state.queue.shuffle_on();
        } else {
            self.state.queue.shuffle_off();
        }
    }

    /// Toggle repeat: the flag `next` and `prev` consult at the queue's
    /// ends.
    pub fn set_repeat(&mut self)
        ensures
            final(self).state.playback.repeat == !old(self).state.playback.repeat,
            final(self).state.queue == old(self).state.queue,
            final(self).state.playback.shuffling == old(self).state.playback.shuffling,
            final(self).state.playback.current == old(self).state.playback.current,
            final(self).state.playback.current_playlist == old(
                self,
            ).state.playback.current_playlist,
            final(self).state.playback.status == old(self).state.playback.status,
            final(self).state.playback.position == old(self).state.playback.position,
            final(self).state.playback.volume == old(self).state.playback.volume,
            final(self).state.playback.mute == old(self).state.playback.mute,
            final(self).state.library.tracks@ == old(self).state.library.tracks@,
            final(self).state.library.playlists@ == old(self).state.library.playlists@,
    {
        self.state.playback.repeat = !self.state.playback.repeat;
    }

    /// Toggle mute on the controller's view and name the engine command
    /// that applies it.
    pub fn set_mute(&mut self) -> (r: AudioCommand)
        ensures
            final(self).state.playback.mute == !old(self).state.playback.mute,
            final(self).state.playback.volume == old(self).state.playback.volume,
            final(self).state.playback.status == old(self).state.playback.status,
            final(self).state.playback.current == old(self).state.playback.current,
            final(self).state.playback.shuffling == old(self).state.playback.shuffling,
            final(self).state.playback.repeat == old(self).state.playback.repeat,
            final(self).state.queue == old(self).state.queue,
            final(self).state.library.tracks@ == old(self).state.library.tracks@,
            r matches AudioCommand::Mute,
    {
        self.state.playback.mute = !self.state.playback.mute;
        AudioCommand::Mute
    }

    /// Record the volume setting, clamped to full scale, and name the
    /// engine command that applies it.
    pub fn set_volume(&mut self, volume: u32) -> (r: AudioCommand)
        ensures
            final(self).state.playback.volume == if volume <= crate::playback::VOLUME_MAX {
                volume
            } else {
                crate::playback::VOLUME_MAX
            },
            final(self).state.playback.mute == old(self).state.playback.mute,
            final(self).state.playback.status == old(self).state.playback.status,
            final(self).state.playback.current == old(self).state.playback.current,
            final(self).state.playback.shuffling == old(self).state.playback.shuffling,
            final(self).state.playback.repeat == old(self).state.playback.repeat,
            final(self).state.queue == old(self).state.queue,
            final(self).state.library.tracks@ == old(self).state.library.tracks@,
            r matches AudioCommand::SetVolume(v) && v == final(self).state.playback.volume,
    {
        let v = if volume <= crate::playback::VOLUME_MAX {
            volume
        } else {
            crate::playback::VOLUME_MAX
        };
        self.state.playback.volume = v;
        AudioCommand::SetVolume(v)
    }

    /// The command that asks the scanner for a folder, carrying every
    /// identity the library already knows so unchanged files skip
    /// re-extraction.
    pub fn scan_folder(&self, path: String) -> (r: ScannerCommand)
        ensures
            r matches ScannerCommand::ScanFolder { path: p, tracks } && p@ == path@ && tracks@.len()
                == self.state.library.tracks@.len() && (forall|i: int|
                0 <= i < tracks@.len() ==> #[trigger] tracks@[i]
                    == self.state.library.tracks@[i].0),
    {
        let mut known: Vec<TrackId> = Vec::new();
        let mut i: usize = 0;
        while i < self.state.library.tracks.len()
            invariant
                i <= self.state.library.tracks@.len(),
                known@.len() == i,
                forall|k: int|
                    0 <= k < i ==> #[trigger] known@[k] == self.state.library.tracks@[k].0,
            decreases self.state.library.tracks@.len() - i,
        {
            known.push(self.state.library.tracks[i].0);
            i = i + 1;
        }
        ScannerCommand::ScanFolder { path, tracks: known }
    }
}

/// A fresh track equal to the given one.
fn clone_track(t: &Track) -> (r: Track)
    ensures
        r.id == t.id,
        r.path@ == t.path@,
        r.title@ == t.title@,
        r.artist@ == t.artist@,
        r.album@ == t.album@,
        r.duration == t.duration,
        r.size == t.size,
        r.modified == t.modified,
{
    Track {
        id: t.id,
        path: t.path.clone(),
        title: t.title.clone(),
        artist: t.artist.clone(),
        album: t.album.clone(),
        duration: t.duration,
        size: t.size,
        modified: t.modified,
    }
}

/// A copy of a list of identities.
fn clone_ids(ids: &Vec<TrackId>) -> (r: Vec<TrackId>)
    ensures
        r@ == ids@,
{
    let mut out: Vec<TrackId> = Vec::new();
    let mut i: usize = 0;
    while i < ids.len()
        invariant
            i <= ids@.len(),
            out@ == ids@.take(i as int),
        decreases ids@.len() - i,
    {
        out.push(ids[i]);
        proof {
            assert(out@ =~= ids@.take(i + 1 as int));
        }
        i = i + 1;
    }
    assert(ids@.take(ids@.len() as int) =~= ids@);
    out
}

/// The claim carried about identities this merge has added so far: each is
/// stored with a delivered track's value.
pub open spec fn merge_added_claim(
    base: Seq<(TrackId, Track)>,
    cur: Seq<(TrackId, Track)>,
    list: Seq<Track>,
) -> bool {
    forall|id: Seq<u8>|
        spec_has_track(cur, id) && !spec_has_track(base, id) ==> ({
            &&& #[trigger] spec_find_track(cur, id) matches Some(stored) && exists|j: int|
                0 <= j < list.len() && (#[trigger] list[j]).id.0@ == id && stored.same_as(&list[j])
        })
}

/// The claim carried about the delivered tracks processed so far: each
/// identity is present, holding the entry the table already had, or else a
/// delivered track.
pub open spec fn merge_processed_claim(
    base: Seq<(TrackId, Track)>,
    cur: Seq<(TrackId, Track)>,
    list: Seq<Track>,
    upto: int,
) -> bool {
    forall|k: int|
        0 <= k < upto ==> match spec_find_track(base, (#[trigger] list[k]).id.0@) {
            Some(u) => spec_find_track(cur, list[k].id.0@) == Some(u),
            None => spec_find_track(cur, list[k].id.0@) matches Some(stored) && exists|j: int|
                0 <= j < list.len() && (#[trigger] list[j]).id.0@ == list[k].id.0@
                    && stored.same_as(&list[j]),
        }
}

/// One step of the insert-only merge: after processing the delivered track
/// at position `i`, identities already in the table keep their entries, the
/// processed identities are present with the right values, and every added
/// identity still holds a delivered track.
proof fn lemma_tracks_merge_step(
    base: Seq<(TrackId, Track)>,
    before: Seq<(TrackId, Track)>,
    after: Seq<(TrackId, Track)>,
    list: Seq<Track>,
    i: int,
    t: Track,
    inserted: bool,
)
    requires
        0 <= i < list.len(),
        t.same_as(&list[i]),
        t.id == list[i].id,
        inserted == !spec_has_track(before, t.id.0@),
        inserted ==> after == before.push((t.id, t)),
        !inserted ==> after == before,
        forall|id: Seq<u8>|
            spec_has_track(base, id) ==> #[trigger] spec_find_track(before, id) == spec_find_track(
                base,
                id,
            ),
        merge_added_claim(base, before, list),
        merge_processed_claim(base, before, list, i),
    ensures
        forall|id: Seq<u8>|
            spec_has_track(base, id) ==> #[trigger] spec_find_track(after, id) == spec_find_track(
                base,
                id,
            ),
        merge_added_claim(base, after, list),
        merge_processed_claim(base, after, list, i + 1),
{
    if inserted {
        assert forall|id: Seq<u8>| spec_has_track(before, id) implies #[trigger] spec_find_track(
            after,
            id,
        ) == spec_find_track(before, id) by {
            lemma_push_keeps_existing(before, (t.id, t), id);
        }
        lemma_find_after_push(before, t.id, t);
        assert forall|id: Seq<u8>|
            spec_has_track(after, id) && !spec_has_track(base, id) implies #[trigger] spec_find_track(
            after,
            id,
        ) matches Some(stored) && exists|j: int|
            0 <= j < list.len() && (#[trigger] list[j]).id.0@ == id && stored.same_as(
                &list[j],
            ) by {
            if id == t.id.0@ {
                assert(spec_find_track(after, id) == Some(t));
                assert((#[trigger] list[i]).id.0@ == id && t.same_as(&list[i]));
            } else {
                assert(spec_has_track(before, id)) by {
                    lemma_push_other_id(before, (t.id, t), id);
                }
            }
        }
    }
    assert forall|k: int| 0 <= k < i + 1 implies match spec_find_track(
        base,
        (#[trigger] list[k]).id.0@,
    ) {
        Some(u) => spec_find_track(after, list[k].id.0@) == Some(u),
        None => spec_find_track(after, list[k].id.0@) matches Some(stored) && exists|j: int|
            0 <= j < list.len() && (#[trigger] list[j]).id.0@ == list[k].id.0@ && stored.same_as(
                &list[j],
            ),
    } by {
        if k == i && !inserted && spec_find_track(base, list[i].id.0@) is None {
            assert(spec_has_track(after, list[i].id.0@));
            assert(spec_find_track(after, list[i].id.0@) matches Some(stored) && exists|j: int|
                0 <= j < list.len() && (#[trigger] list[j]).id.0@ == list[i].id.0@
                    && stored.same_as(&list[j]));
        }
    }
}

/// An identity a push did not carry is in the new table only if it was in
/// the old one.
proof fn lemma_push_other_id(entries: Seq<(TrackId, Track)>, e: (TrackId, Track), id: Seq<u8>)
    requires
        e.0.0@ != id,
        spec_has_track(entries.push(e), id),
    ensures
        spec_has_track(entries, id),
    decreases entries.len(),
{
    if entries.len() == 0 {
        assert(entries.push(e)[0] == e);
        assert(entries.push(e).drop_first() =~= Seq::<(TrackId, Track)>::empty());
        assert(spec_find_track(entries.push(e), id) is None);
    } else if entries[0].0.0@ != id {
        assert(entries.push(e)[0] == entries[0]);
        assert(entries.push(e).drop_first() =~= entries.drop_first().push(e));
        lemma_push_other_id(entries.drop_first(), e, id);
    }
}

/// A pushed entry is found under its identity if no earlier entry hides it.
proof fn lemma_find_after_push(entries: Seq<(TrackId, Track)>, id: TrackId, t: Track)
    requires
        !spec_has_track(entries, id.0@),
    ensures
        spec_find_track(entries.push((id, t)), id.0@) == Some(t),
    decreases entries.len(),
{
    if entries.len() == 0 {
        assert(entries.push((id, t))[0] == (id, t));
    } else {
        assert(entries.push((id, t))[0] == entries[0]);
        assert(entries.push((id, t)).drop_first() =~= entries.drop_first().push((id, t)));
        lemma_find_after_push(entries.drop_first(), id, t);
    }
}

/// Pushing an entry at the back never changes what an already-present
/// identity is found as: the table scans from the front.
proof fn lemma_push_keeps_existing(entries: Seq<(TrackId, Track)>, e: (TrackId, Track), id: Seq<u8>)
    requires
        spec_has_track(entries, id),
    ensures
        spec_find_track(entries.push(e), id) == spec_find_track(entries, id),
    decreases entries.len(),
{
    assert(entries.push(e)[0] == entries[0]);
    if entries[0].0.0@ != id {
        assert(entries.push(e).drop_first() =~= entries.drop_first().push(e));
        lemma_push_keeps_existing(entries.drop_first(), e, id);
    }
}

} // verus!
