use wiremann::metadata::Metadata;
use wiremann::scanner::{
    FileStat, ScanSession, ScannerEvent, assemble_playlist, build_track, fallback_metadata,
    filename_stem, is_supported, plan_scan, process_thumbnail, worker_count,
};
use wiremann::track::gen_track_id;

fn stat(path: &str) -> FileStat {
    FileStat { path: path.to_string(), size: 1000, modified: 5000 }
}

#[test]
fn track_id_is_deterministic_and_input_sensitive() {
    let a = gen_track_id("/music/a.mp3", 10, 20);
    let b = gen_track_id("/music/a.mp3", 10, 20);
    assert_eq!(a, b);
    assert_ne!(a, gen_track_id("/music/b.mp3", 10, 20));
    assert_ne!(a, gen_track_id("/music/a.mp3", 11, 20));
    assert_ne!(a, gen_track_id("/music/a.mp3", 10, 21));
}

#[test]
fn extension_allow_list_is_case_insensitive() {
    assert!(is_supported("/m/song.mp3"));
    assert!(is_supported("/m/song.MP3"));
    assert!(is_supported("/m/song.FlAc"));
    assert!(is_supported("/m/song.wav"));
    assert!(is_supported("/m/song.OGG"));
    assert!(is_supported("/m/song.m4a"));
    assert!(!is_supported("/m/song.txt"));
    assert!(!is_supported("/m/song"));
    assert!(!is_supported("/m/song.mp3.bak"));
    assert!(!is_supported("/m.mp3/song"));
    assert!(!is_supported(""));
}

#[test]
fn filename_stem_strips_directories_and_extension() {
    assert_eq!(filename_stem("/music/holiday/take five.mp3"), "take five");
    assert_eq!(filename_stem("plain.ogg"), "plain");
    assert_eq!(filename_stem("/music/noext"), "noext");
    assert_eq!(filename_stem("/music/dir/"), "");
}

#[test]
fn degraded_metadata_titles_by_filename() {
    let m = fallback_metadata("/music/broken tags.mp3");
    assert_eq!(m.title, "broken tags");
    assert_eq!(m.artists, vec!["Unknown Artist".to_string()]);
    assert_eq!(m.album, "Unknown Album");
    assert_eq!(m.duration, 0);
    assert!(m.thumbnail.is_none());
}

#[test]
fn rescan_with_known_ids_extracts_nothing() {
    let files = vec![stat("/m/a.mp3"), stat("/m/b.mp3"), stat("/m/c.wav")];
    let first = plan_scan(&files, &Vec::new());
    assert_eq!(first.order.len(), 3);
    assert_eq!(first.to_extract.len(), 3);
    let second = plan_scan(&files, &first.order);
    assert_eq!(second.order.len(), 3);
    assert_eq!(second.to_extract.len(), 0);
    assert_eq!(second.order, first.order);
}

#[test]
fn changed_files_are_extracted_again() {
    let files = vec![stat("/m/a.mp3"), stat("/m/b.mp3")];
    let first = plan_scan(&files, &Vec::new());
    let mut touched = files.clone();
    touched[1].modified += 1;
    let second = plan_scan(&touched, &first.order);
    assert_eq!(second.to_extract.len(), 1);
    assert_eq!(second.to_extract[0].path, "/m/b.mp3");
}

#[test]
fn scan_of_three_files_with_one_corrupt_yields_three_tracks() {
    // Two files with readable tags, one whose tag probe failed.
    let files = vec![stat("/m/one.mp3"), stat("/m/two.flac"), stat("/m/three.ogg")];
    let plan = plan_scan(&files, &Vec::new());
    let good = Metadata {
        title: "Good".to_string(),
        artists: vec!["Artist".to_string()],
        album: "Album".to_string(),
        genre: String::new(),
        duration: 200,
        writer: String::new(),
        producer: String::new(),
        publisher: String::new(),
        label: String::new(),
        thumbnail: None,
    };
    let tracks = vec![
        build_track(&files[0], &good),
        build_track(&files[1], &good),
        build_track(&files[2], &fallback_metadata(&files[2].path)),
    ];
    assert_eq!(tracks.len(), 3);
    assert_eq!(tracks[2].title, "three");
    assert_eq!(tracks[2].artist, "Unknown Artist");
    assert_eq!(tracks[2].duration, 0);
    let playlist = assemble_playlist("/m", plan.order);
    assert_eq!(playlist.tracks.len(), 3);
    assert_eq!(playlist.tracks[0], tracks[0].id);
}

#[test]
fn superseding_scan_silences_earlier_thumbnail_work() {
    let mut session = ScanSession::new();
    let gen1 = session.start_scan();
    assert!(session.may_emit(gen1));
    let gen2 = session.start_scan();
    assert!(!session.may_emit(gen1));
    assert!(session.may_emit(gen2));
    let stale = session.emit_thumbnail(gen1, "/m/a.mp3".to_string(), 64, 64, vec![0; 4]);
    assert!(stale.is_none());
    let live = session.emit_thumbnail(gen2, "/m/a.mp3".to_string(), 64, 64, vec![0; 4]);
    assert!(matches!(live, Some(ScannerEvent::Thumbnail { generation, .. }) if generation == gen2));
}

#[test]
fn worker_pools_always_keep_one_worker() {
    assert_eq!(worker_count(8, 1), 7);
    assert_eq!(worker_count(8, 2), 6);
    assert_eq!(worker_count(2, 1), 1);
    assert_eq!(worker_count(1, 2), 1);
    assert_eq!(worker_count(0, 1), 1);
}

#[test]
fn thumbnail_pipeline_decodes_real_image_bytes() {
    // A 3x2 PNG built in memory; the pipeline must decode and downscale it,
    // not hand the bytes back.
    let mut img = image::RgbaImage::new(3, 2);
    for p in img.pixels_mut() {
        p.0 = [10, 200, 30, 255];
    }
    let mut png: Vec<u8> = Vec::new();
    image::DynamicImage::ImageRgba8(img)
        .write_to(&mut std::io::Cursor::new(&mut png), image::ImageFormat::Png)
        .expect("png encodes");
    let mut session = ScanSession::new();
    let gen = session.start_scan();
    let out = process_thumbnail(&session, gen, "/m/a.mp3".to_string(), &png);
    let (event, stored) = out.expect("decodes");
    assert_eq!(stored.len(), 4 * 64 * 64);
    assert_ne!(stored, png);
    match event {
        ScannerEvent::Thumbnail { width, height, image, generation, path } => {
            assert_eq!((width, height), (64, 64));
            assert_eq!(image.len(), 4 * 64 * 64);
            assert_eq!(generation, gen);
            assert_eq!(path, "/m/a.mp3");
        },
        _ => panic!("expected a thumbnail event"),
    }
    // Bytes that are no image degrade to nothing.
    assert!(process_thumbnail(&session, gen, "/m/b.mp3".to_string(), &vec![1, 2, 3]).is_none());
}

#[test]
fn cached_tracks_keep_their_identity() {
    let s = stat("/m/keep.mp3");
    let m = fallback_metadata(&s.path);
    let cached = wiremann::cache::track_to_cache(&s, &m);
    let back = wiremann::cache::track_from_cache(&cached);
    assert_eq!(back.id, gen_track_id(&s.path, s.size, s.modified));
    assert_eq!(back.title, "keep");
}

#[test]
fn fresh_playlist_identities_are_distinct() {
    let a = wiremann::playlist::new_playlist_id();
    let b = wiremann::playlist::new_playlist_id();
    assert_ne!(a, b);
}

#[test]
fn the_host_reports_at_least_one_core() {
    assert!(wiremann::scanner::available_cores() >= 1);
}
