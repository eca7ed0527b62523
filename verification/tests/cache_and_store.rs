use wiremann::cache::index::{CachedPlaylistIndex, CachedPlaylistIndexes, decode_playlist_indexes, encode_playlist_indexes};
use wiremann::cache::records::{
    MetadataCache, PlaylistCache, ThumbnailsCached, TrackCache, decode_playlist_cache,
    decode_thumbnails_cached, encode_playlist_cache, encode_thumbnails_cached,
};
use wiremann::cache::state::{AppStateCache, decode_app_state_cache, encode_app_state_cache};
use wiremann::cache::CacheManager;
use wiremann::hex::{hex_of, hex_parse};
use wiremann::playback::PlaybackStatus;
use wiremann::playlist::{PlaylistId, playlist_id_from_text};
use wiremann::store::FileStore;
use wiremann::errors::{AudioError, ControllerError, ScannerError};

fn meta(title: &str) -> MetadataCache {
    MetadataCache {
        title: title.to_string(),
        artists: vec!["Ana".to_string(), "Bo".to_string()],
        album: "Waves".to_string(),
        genre: "ambient".to_string(),
        duration: 241,
        writer: "w".to_string(),
        producer: "p".to_string(),
        publisher: String::new(),
        label: "l".to_string(),
    }
}

fn sample_playlist() -> PlaylistCache {
    PlaylistCache {
        id: PlaylistId(42).text(),
        name: "road trip".to_string(),
        path: "/music/trip".to_string(),
        tracks: vec![
            TrackCache { path: "/music/trip/a.mp3".to_string(), size: 9, modified: 100, meta: meta("a") },
            TrackCache { path: "/music/trip/ü.flac".to_string(), size: 11, modified: 200, meta: meta("ü") },
        ],
    }
}

#[test]
fn playlist_cache_round_trips_identically() {
    let p = sample_playlist();
    let bytes = encode_playlist_cache(&p);
    let back = decode_playlist_cache(&bytes).expect("decodes");
    assert_eq!(back.id, p.id);
    assert_eq!(back.name, p.name);
    assert_eq!(back.path, p.path);
    assert_eq!(back.tracks.len(), 2);
    assert_eq!(back.tracks[1].path, "/music/trip/ü.flac");
    assert_eq!(back.tracks[1].size, 11);
    assert_eq!(back.tracks[1].meta.title, "ü");
    assert_eq!(back.tracks[0].meta.artists, vec!["Ana".to_string(), "Bo".to_string()]);
    assert_eq!(back.tracks[0].meta.duration, 241);
}

#[test]
fn corrupt_or_truncated_playlist_blobs_are_rejected() {
    let p = sample_playlist();
    let mut bytes = encode_playlist_cache(&p);
    bytes.pop();
    assert!(decode_playlist_cache(&bytes).is_none());
    let mut with_trailing = encode_playlist_cache(&p);
    with_trailing.push(0);
    assert!(decode_playlist_cache(&with_trailing).is_none());
    assert!(decode_playlist_cache(&vec![1, 2, 3]).is_none());
}

#[test]
fn thumbnails_round_trip_with_identical_bytes_per_key() {
    let t = ThumbnailsCached {
        thumbnails: vec![
            ("/music/a.mp3".to_string(), vec![1, 2, 3]),
            ("/music/b.ogg".to_string(), vec![]),
            ("/music/c.wav".to_string(), vec![255, 0, 128]),
        ],
    };
    let bytes = encode_thumbnails_cached(&t);
    let back = decode_thumbnails_cached(&bytes).expect("decodes");
    assert_eq!(back.thumbnails.len(), 3);
    for (a, b) in t.thumbnails.iter().zip(back.thumbnails.iter()) {
        assert_eq!(a.0, b.0);
        assert_eq!(a.1, b.1);
    }
}

#[test]
fn app_state_snapshot_round_trips() {
    let a = AppStateCache {
        current: Some("/music/now.mp3".to_string()),
        state: PlaybackStatus::Paused,
        position: 93,
        volume: 55,
        mute: true,
        shuffling: true,
        repeat: false,
        index: 4,
        queue_order: vec![4, 2, 0, 1, 3],
    };
    let bytes = encode_app_state_cache(&a);
    let back = decode_app_state_cache(&bytes).expect("decodes");
    assert_eq!(back.current.as_deref(), Some("/music/now.mp3"));
    assert_eq!(back.state, PlaybackStatus::Paused);
    assert_eq!(back.position, 93);
    assert_eq!(back.volume, 55);
    assert!(back.mute);
    assert!(back.shuffling);
    assert!(!back.repeat);
    assert_eq!(back.index, 4);
    assert_eq!(back.queue_order, vec![4, 2, 0, 1, 3]);
}

#[test]
fn playlist_index_round_trips() {
    let x = CachedPlaylistIndexes {
        playlists: vec![
            CachedPlaylistIndex { id: PlaylistId(1).text(), name: "one".to_string(), path: "/a".to_string() },
            CachedPlaylistIndex { id: PlaylistId(2).text(), name: "två".to_string(), path: "/b".to_string() },
        ],
    };
    let bytes = encode_playlist_indexes(&x);
    let back = decode_playlist_indexes(&bytes).expect("decodes");
    assert_eq!(back.playlists.len(), 2);
    assert_eq!(back.playlists[1].name, "två");
    assert_eq!(back.playlists[0].id, PlaylistId(1).text());
}

#[test]
fn hex_text_round_trips_and_rejects_junk() {
    let bytes = vec![0u8, 15, 16, 255, 171];
    let text = hex_of(&bytes);
    assert_eq!(text, "000f10ffab");
    assert_eq!(hex_parse(&text), Some(bytes));
    assert!(hex_parse("abc").is_none());
    assert!(hex_parse("zz").is_none());
    assert_eq!(hex_parse(""), Some(vec![]));
}

#[test]
fn playlist_id_text_round_trips() {
    let id = PlaylistId(0x1234_5678_9abc_def0_1122_3344_5566_7788u128);
    let text = id.text();
    assert_eq!(text.len(), 32);
    assert_eq!(playlist_id_from_text(&text), Some(id));
    assert!(playlist_id_from_text("nonsense").is_none());
    assert!(playlist_id_from_text("00ff").is_none());
}

#[test]
fn crash_between_temp_write_and_rename_preserves_the_old_file() {
    let mut store = FileStore::new();
    store.put("/cache/tracks.bin".to_string(), vec![1, 2, 3]);
    // The crash: the temp file was written, the rename never happened.
    store.put("/cache/tracks.tmp".to_string(), vec![9, 9]);
    assert_eq!(store.lookup(&"/cache/tracks.bin".to_string()), Some(vec![1, 2, 3]));
}

#[test]
fn atomic_write_commits_exactly_the_new_bytes() {
    let mut store = FileStore::new();
    store.put("/cache/tracks.bin".to_string(), vec![1, 2, 3]);
    store.atomic_write(
        "/cache/tracks.bin".to_string(),
        "/cache/tracks.tmp".to_string(),
        vec![7, 8],
    );
    assert_eq!(store.lookup(&"/cache/tracks.bin".to_string()), Some(vec![7, 8]));
    assert_eq!(store.lookup(&"/cache/tracks.tmp".to_string()), None);
}

#[test]
fn cache_manager_round_trips_a_playlist_through_the_store() {
    let mut store = FileStore::new();
    let manager = CacheManager::init("/cache".to_string());
    let p = sample_playlist();
    let thumbs = ThumbnailsCached {
        thumbnails: vec![("/music/trip/a.mp3".to_string(), vec![0, 1])],
    };
    let dir = manager.playlist_dir(&p.id);
    manager.write_playlist(&mut store, &dir, &p, &thumbs);
    let (back, back_thumbs) = manager.read_playlist(&store, &dir).expect("cache hit");
    assert_eq!(back.name, p.name);
    assert_eq!(back.tracks.len(), p.tracks.len());
    assert_eq!(back_thumbs.thumbnails[0].1, vec![0, 1]);
    // A different playlist directory is a miss.
    let other = manager.playlist_dir(&PlaylistId(99).text());
    assert!(manager.read_playlist(&store, &other).is_none());
}

#[test]
fn cache_manager_degrades_corruption_to_absent() {
    let mut store = FileStore::new();
    let manager = CacheManager::init("/cache".to_string());
    let dir = manager.playlist_dir(&PlaylistId(5).text());
    store.put(format!("{}/tracks.bin", dir), vec![3, 1, 4, 1, 5]);
    store.put(format!("{}/thumbnails.bin", dir), vec![2, 7]);
    assert!(manager.read_playlist(&store, &dir).is_none());
    // An unreadable index reads as empty rather than failing.
    store.put("/cache/playlists.index".to_string(), vec![0xde, 0xad]);
    assert_eq!(manager.read_cached_playlist_indexes(&store).playlists.len(), 0);
}

#[test]
fn cache_manager_round_trips_the_index_and_snapshot() {
    let mut store = FileStore::new();
    let manager = CacheManager::init("/cache".to_string());
    let x = CachedPlaylistIndexes {
        playlists: vec![CachedPlaylistIndex {
            id: PlaylistId(3).text(),
            name: "n".to_string(),
            path: "/m".to_string(),
        }],
    };
    manager.write_cached_playlist_indexes(&mut store, &x);
    let back = manager.read_cached_playlist_indexes(&store);
    assert_eq!(back.playlists.len(), 1);
    assert_eq!(back.playlists[0].path, "/m");

    let snapshot = AppStateCache {
        current: None,
        state: PlaybackStatus::Stopped,
        position: 0,
        volume: 80,
        mute: false,
        shuffling: false,
        repeat: true,
        index: 0,
        queue_order: vec![],
    };
    manager.write_app_state(&mut store, &snapshot);
    let back = manager.read_app_state(&store).expect("snapshot read");
    assert_eq!(back.volume, 80);
    assert!(back.repeat);
    assert!(back.current.is_none());
    assert!(manager.read_app_state(&FileStore::new()).is_none());
}

#[test]
fn text_decoding_rejects_bytes_that_are_not_utf8() {
    // A length-prefixed field announcing one byte that is no UTF-8 start.
    let mut bytes: Vec<u8> = Vec::new();
    wiremann::cache::codec::enc_u64(&mut bytes, 1);
    bytes.push(0xff);
    assert!(wiremann::cache::codec::dec_str(&bytes, 0).is_none());
    // The same framing around real text decodes.
    let mut good: Vec<u8> = Vec::new();
    wiremann::cache::codec::enc_str(&mut good, "grüße");
    let (s, end) = wiremann::cache::codec::dec_str(&good, 0).expect("decodes");
    assert_eq!(s, "grüße");
    assert_eq!(end, good.len());
}

#[test]
fn controller_errors_wrap_their_sources() {
    let e = ControllerError::from_scanner(ScannerError::LoadFolder("/gone".to_string()));
    assert!(matches!(e, ControllerError::ScannerError(ScannerError::LoadFolder(p)) if p == "/gone"));
    let e = ControllerError::from_audio(AudioError::Seek(12));
    assert!(matches!(e, ControllerError::AudioError(AudioError::Seek(12))));
    let io = ScannerError::IoError("denied".to_string());
    assert!(matches!(io, ScannerError::IoError(_)));
    let probe = ScannerError::TagProbe("/m/bad.mp3".to_string());
    assert!(matches!(probe, ScannerError::TagProbe(_)));
    let clock = ScannerError::SystemTimeError("before the epoch".to_string());
    assert!(matches!(clock, ScannerError::SystemTimeError(_)));
}

#[test]
fn index_lookup_finds_cached_folders_by_path() {
    let x = CachedPlaylistIndexes {
        playlists: vec![
            CachedPlaylistIndex { id: PlaylistId(1).text(), name: "a".to_string(), path: "/a".to_string() },
            CachedPlaylistIndex { id: PlaylistId(2).text(), name: "b".to_string(), path: "/b".to_string() },
        ],
    };
    let hit = x.find_by_path("/b").expect("indexed");
    assert_eq!(hit.name, "b");
    assert!(x.find_by_path("/c").is_none());
}
