use wiremann::controller::Controller;
use wiremann::playback::{AudioAction, AudioEngine, AudioEvent, PlaybackStatus};
use wiremann::queue::QueueState;
use wiremann::scanner::ScannerEvent;
use wiremann::track::TrackId;

fn ids(n: u8) -> Vec<TrackId> {
    (0..n).map(|i| TrackId([i; 32])).collect()
}

fn is_permutation(order: &[usize], len: usize) -> bool {
    let mut seen = vec![false; len];
    if order.len() != len {
        return false;
    }
    for &v in order {
        if v >= len || seen[v] {
            return false;
        }
        seen[v] = true;
    }
    true
}

#[test]
fn queue_reset_is_identity() {
    let mut q = QueueState::new();
    q.reset(ids(4));
    assert_eq!(q.order, vec![0, 1, 2, 3]);
    assert_eq!(q.index, 0);
}

#[test]
fn shuffle_keeps_permutation_for_all_lengths() {
    for n in [0u8, 1, 2, 5, 9] {
        let mut q = QueueState::new();
        q.reset(ids(n));
        q.shuffle_on();
        assert!(is_permutation(&q.order, n as usize));
        q.shuffle_off();
        assert!(is_permutation(&q.order, n as usize));
        let identity: Vec<usize> = (0..n as usize).collect();
        assert_eq!(q.order, identity);
    }
}

#[test]
fn shuffle_on_keeps_playing_track_first() {
    let mut q = QueueState::new();
    q.reset(ids(6));
    q.index = 4;
    let playing_real = q.order[q.index];
    q.shuffle_on();
    assert_eq!(q.index, 0);
    assert_eq!(q.order[0], playing_real);
}

#[test]
fn shuffle_off_restores_identity_at_real_index() {
    let mut q = QueueState::new();
    q.reset(ids(6));
    q.index = 2;
    q.shuffle_on();
    // Move around inside the shuffled order, then unshuffle.
    let _ = q.next(true);
    let real = q.order[q.index];
    q.shuffle_off();
    let identity: Vec<usize> = (0..6).collect();
    assert_eq!(q.order, identity);
    assert_eq!(q.index, real);
}

#[test]
fn next_with_repeat_cycles_back_to_front_every_len_calls() {
    let mut q = QueueState::new();
    q.reset(ids(4));
    for step in 1..=8usize {
        let moved = q.next(true);
        assert!(moved);
        assert_eq!(q.index, step % 4);
    }
}

#[test]
fn next_without_repeat_stops_at_the_end() {
    let mut q = QueueState::new();
    q.reset(ids(3));
    assert!(q.next(false));
    assert!(q.next(false));
    assert_eq!(q.index, 2);
    assert!(!q.next(false));
    assert_eq!(q.index, 2);
}

#[test]
fn prev_without_repeat_stops_at_the_front() {
    let mut q = QueueState::new();
    q.reset(ids(3));
    assert!(!q.prev(false));
    assert_eq!(q.index, 0);
    assert!(q.prev(true));
    assert_eq!(q.index, 2);
}

#[test]
fn next_on_empty_queue_is_a_no_op() {
    let mut q = QueueState::new();
    assert!(!q.next(true));
    assert!(!q.prev(true));
    assert_eq!(q.index, 0);
}

#[test]
fn load_failure_keeps_engine_stopped_and_emits_error_only() {
    let mut e = AudioEngine::new();
    let actions = e.begin_load("/music/missing.mp3".to_string());
    assert_eq!(actions.len(), 2);
    assert!(matches!(actions[0], AudioAction::StopSink));
    let (acts, events) = e.finish_load("/music/missing.mp3".to_string(), 0, 0, false);
    assert_eq!(e.player_state.status, PlaybackStatus::Stopped);
    assert!(acts.is_empty());
    assert_eq!(events.len(), 1);
    assert!(matches!(events[0], AudioEvent::Error(_)));
    assert!(!events.iter().any(|ev| matches!(ev, AudioEvent::TrackLoaded { .. })));
    assert!(e.player_state.current.is_none());
}

#[test]
fn successful_load_plays_and_announces_the_track() {
    let mut e = AudioEngine::new();
    let _ = e.begin_load("/music/song.flac".to_string());
    let (acts, events) = e.finish_load("/music/song.flac".to_string(), 10, 20, true);
    assert_eq!(e.player_state.status, PlaybackStatus::Playing);
    assert_eq!(acts.len(), 1);
    assert!(matches!(acts[0], AudioAction::SetSinkVolume(100)));
    assert_eq!(events.len(), 2);
    assert!(
        matches!(&events[0], AudioEvent::TrackLoaded { path, size: 10, modified: 20 } if path == "/music/song.flac")
    );
}

#[test]
fn play_while_playing_changes_nothing() {
    let mut e = AudioEngine::new();
    let _ = e.begin_load("/a.mp3".to_string());
    let _ = e.finish_load("/a.mp3".to_string(), 1, 1, true);
    assert_eq!(e.player_state.status, PlaybackStatus::Playing);
    let (acts, events) = e.play();
    assert!(acts.is_empty());
    assert!(events.is_empty());
    assert_eq!(e.player_state.status, PlaybackStatus::Playing);
}

#[test]
fn track_end_is_reported_exactly_once_per_load() {
    let mut e = AudioEngine::new();
    let _ = e.begin_load("/a.mp3".to_string());
    let _ = e.finish_load("/a.mp3".to_string(), 1, 1, true);
    let first = e.tick(30, true);
    assert!(first.iter().any(|ev| matches!(ev, AudioEvent::TrackEnded)));
    let second = e.tick(30, true);
    assert!(!second.iter().any(|ev| matches!(ev, AudioEvent::TrackEnded)));
    // A new load re-arms the latch.
    let _ = e.begin_load("/b.mp3".to_string());
    let _ = e.finish_load("/b.mp3".to_string(), 2, 2, true);
    let third = e.tick(0, true);
    assert!(third.iter().any(|ev| matches!(ev, AudioEvent::TrackEnded)));
}

#[test]
fn mute_silences_without_losing_the_stored_volume() {
    let mut e = AudioEngine::new();
    let _ = e.set_volume(30);
    let (acts, _) = e.toggle_mute();
    assert!(matches!(acts[0], AudioAction::SetSinkVolume(0)));
    assert_eq!(e.player_state.volume, 30);
    let (acts, _) = e.toggle_mute();
    assert!(matches!(acts[0], AudioAction::SetSinkVolume(30)));
}

#[test]
fn volume_is_clamped_to_full_scale() {
    let mut e = AudioEngine::new();
    let _ = e.set_volume(250);
    assert_eq!(e.player_state.volume, 100);
}

#[test]
fn paused_engine_ticks_silently() {
    let mut e = AudioEngine::new();
    let _ = e.begin_load("/a.mp3".to_string());
    let _ = e.finish_load("/a.mp3".to_string(), 1, 1, true);
    let (_, _) = e.pause();
    let events = e.tick(5, true);
    assert!(events.is_empty());
}

#[test]
fn seek_failure_is_reported_and_recoverable() {
    let mut e = AudioEngine::new();
    let acts = e.seek(99);
    assert!(matches!(acts[0], AudioAction::TrySeek(99)));
    let events = e.on_seek_result(99, false);
    assert_eq!(events.len(), 1);
    assert!(matches!(events[0], AudioEvent::Error(_)));
    let events = e.on_seek_result(3, true);
    assert!(events.is_empty());
}

#[test]
fn controller_resets_queue_on_new_playlist() {
    let mut c = Controller::new();
    let playlist = wiremann::playlist::Playlist {
        id: wiremann::playlist::PlaylistId(7),
        name: "albums".to_string(),
        source: wiremann::playlist::PlaylistSource::Folder("/music".to_string()),
        tracks: ids(3),
    };
    c.handle_scanner_event(ScannerEvent::Playlist(playlist));
    assert_eq!(c.state.queue.order, vec![0, 1, 2]);
    assert_eq!(c.state.queue.index, 0);
    assert!(c.state.playback.current_playlist.is_some());
}

#[test]
fn controller_asks_scanner_only_for_unknown_tracks() {
    let mut c = Controller::new();
    let event = AudioEvent::TrackLoaded { path: "/m/a.mp3".to_string(), size: 5, modified: 9 };
    let cmds = c.handle_audio_event(&event);
    assert_eq!(cmds.len(), 1);
    // Teach the controller the track, then the same load needs no request.
    if let wiremann::scanner::ScannerCommand::GetTrackMetadata { path, track_id } = &cmds[0] {
        c.handle_scanner_event(ScannerEvent::TrackMetadata {
            path: path.clone(),
            track_id: *track_id,
            title: "a".to_string(),
            artist: "b".to_string(),
            album: "c".to_string(),
            duration: 3,
            size: 5,
            modified: 9,
        });
    } else {
        panic!("expected a metadata request");
    }
    let cmds = c.handle_audio_event(&event);
    assert!(cmds.is_empty());
}

#[test]
fn library_merge_is_insert_only() {
    let mut c = Controller::new();
    let id = TrackId([9; 32]);
    c.handle_scanner_event(ScannerEvent::TrackMetadata {
        path: "/m/a.mp3".to_string(),
        track_id: id,
        title: "first".to_string(),
        artist: "x".to_string(),
        album: "y".to_string(),
        duration: 1,
        size: 2,
        modified: 3,
    });
    c.handle_scanner_event(ScannerEvent::TrackMetadata {
        path: "/m/a.mp3".to_string(),
        track_id: id,
        title: "second".to_string(),
        artist: "x".to_string(),
        album: "y".to_string(),
        duration: 1,
        size: 2,
        modified: 3,
    });
    assert_eq!(c.state.library.tracks.len(), 1);
    assert_eq!(c.state.library.tracks[0].1.title, "first");
}

#[test]
fn controller_shuffle_toggles_and_keeps_the_playhead() {
    let mut c = Controller::new();
    let playlist = wiremann::playlist::Playlist {
        id: wiremann::playlist::PlaylistId(1),
        name: "p".to_string(),
        source: wiremann::playlist::PlaylistSource::Generated,
        tracks: ids(5),
    };
    c.handle_scanner_event(ScannerEvent::Playlist(playlist));
    c.state.queue.index = 3;
    c.set_shuffle();
    assert!(c.state.playback.shuffling);
    assert_eq!(c.state.queue.index, 0);
    assert_eq!(c.state.queue.order[0], 3);
    c.set_shuffle();
    assert!(!c.state.playback.shuffling);
    assert_eq!(c.state.queue.index, 3);
}

#[test]
fn next_loads_the_track_the_queue_names() {
    let mut c = Controller::new();
    // Teach the library two tracks, then make them the active playlist.
    for (path, size) in [("/m/a.mp3", 1u64), ("/m/b.mp3", 2u64)] {
        let id = wiremann::track::gen_track_id(path, size, 7);
        c.handle_scanner_event(ScannerEvent::TrackMetadata {
            path: path.to_string(),
            track_id: id,
            title: path.to_string(),
            artist: "x".to_string(),
            album: "y".to_string(),
            duration: 1,
            size,
            modified: 7,
        });
    }
    let tracks = vec![
        wiremann::track::gen_track_id("/m/a.mp3", 1, 7),
        wiremann::track::gen_track_id("/m/b.mp3", 2, 7),
    ];
    c.handle_scanner_event(ScannerEvent::Playlist(wiremann::playlist::Playlist {
        id: wiremann::playlist::PlaylistId(5),
        name: "p".to_string(),
        source: wiremann::playlist::PlaylistSource::Generated,
        tracks,
    }));
    let cmd = c.next().expect("a load is owed");
    match cmd {
        wiremann::playback::AudioCommand::Load(p) => assert_eq!(p, "/m/b.mp3"),
        _ => panic!("expected a load"),
    }
    // At the end without repeat, nothing moves and nothing loads.
    assert!(c.next().is_none());
    assert_eq!(c.state.queue.index, 1);
}
