//! The on-disk cache: record shapes, their binary framing, and the manager
//! that lays the files out and moves records through the write-temp-then-
//! rename discipline.
//!
//! Read failures of every kind — a missing file, bytes that do not parse —
//! degrade to "absent": the caller falls back to a fresh scan, never to an
//! error.

pub mod codec;
pub mod index;
pub mod records;
pub mod state;

use vstd::prelude::*;

use crate::cache::index::{
    CachedPlaylistIndexes,
    decode_playlist_indexes,
    encode_playlist_indexes,
    spec_enc_index_seq,
    spec_parse_playlist_indexes,
};
use crate::cache::records::{
    MetadataCache,
    PlaylistCache,
    ThumbnailsCached,
    TrackCache,
    decode_playlist_cache,
    decode_thumbnails_cached,
    encode_playlist_cache,
    encode_thumbnails_cached,
    spec_enc_playlist,
    spec_enc_thumb_seq,
    spec_parse_playlist,
    spec_parse_thumbnails,
};
use crate::cache::state::{
    AppStateCache,
    decode_app_state_cache,
    encode_app_state_cache,
    spec_enc_app_state,
};
use crate::metadata::Metadata;
use crate::scanner::FileStat;
use crate::store::{FileStore, spec_lookup, lemma_atomic_write_preserves_others};
use crate::track::Track;

verus! {

/// The manager knows where the cache lives; every operation goes through
/// the store it is handed, one whole file at a time.
#[derive(Clone, Debug)]
pub struct CacheManager {
    pub cache_dir: String,
}

/// A directory entry under a directory.
pub open spec fn spec_join(dir: Seq<char>, name: Seq<char>) -> Seq<char> {
    dir + seq!['/'] + name
}

/// Join a name under a directory.
fn join(dir: &String, name: &str) -> (r: String)
    ensures
        r@ == spec_join(dir@, name@),
{
    let mut s = dir.clone();
    s.append("/");
    s.append(name);
    proof {
        reveal_strlit("/");
        assert("/"@ =~= seq!['/']);
    }
    s
}

/// Appending different names under one directory gives different paths.
proof fn lemma_join_unequal(dir: Seq<char>, a: Seq<char>, b: Seq<char>)
    requires
        a != b,
    ensures
        spec_join(dir, a) != spec_join(dir, b),
{
    if spec_join(dir, a) == spec_join(dir, b) {
        let d = dir + seq!['/'];
        assert(a =~= (d + a).subrange(d.len() as int, (d + a).len() as int));
        assert(b =~= (d + b).subrange(d.len() as int, (d + b).len() as int));
    }
}

impl CacheManager {
    /// A manager over the given cache directory. The host creates the
    /// directory and hands its path in.
    pub fn init(cache_dir: String) -> (r: CacheManager)
        ensures
            r.cache_dir@ == cache_dir@,
    {
        CacheManager { cache_dir }
    }

    /// The index file's path.
    pub fn index_path(&self) -> (r: String)
        ensures
            r@ == spec_join(self.cache_dir@, "playlists.index"@),
    {
        join(&self.cache_dir, "playlists.index")
    }

    /// The directory one playlist's blobs live in.
    pub fn playlist_dir(&self, id_text: &str) -> (r: String)
        ensures
            r@ == spec_join(self.cache_dir@, id_text@),
    {
        join(&self.cache_dir, id_text)
    }

    /// Read the playlist index; a missing or unreadable index reads as
    /// empty.
    pub fn read_cached_playlist_indexes(&self, store: &FileStore) -> (r: CachedPlaylistIndexes)
        ensures
            match spec_lookup(store@, spec_join(self.cache_dir@, "playlists.index"@)) {
                Some(bytes) => match spec_parse_playlist_indexes(bytes) {
                    Some(v) => r@ == v,
                    None => r@.len() == 0,
                },
                None => r@.len() == 0,
            },
    {
        let path = self.index_path();
        match store.lookup(&path) {
            Some(bytes) => match decode_playlist_indexes(&bytes) {
                Some(v) => v,
                None => CachedPlaylistIndexes::new(),
            },
            None => CachedPlaylistIndexes::new(),
        }
    }

    /// Rewrite the playlist index atomically: the index file afterwards
    /// holds exactly the encoded entries, and a reader at any moment in
    /// between could only have seen the old index or the new one.
    pub fn write_cached_playlist_indexes(
        &self,
        store: &mut FileStore,
        indexes: &CachedPlaylistIndexes,
    )
        ensures
            spec_lookup(final(store)@, spec_join(self.cache_dir@, "playlists.index"@)) == Some(
                spec_enc_index_seq(indexes@),
            ),
            forall|name: Seq<char>|
                (name != spec_join(self.cache_dir@, "playlists.index"@) && name != spec_join(
                    self.cache_dir@,
                    "playlists.tmp"@,
                )) ==> #[trigger] spec_lookup(final(store)@, name) == spec_lookup(old(store)@, name),
    {
        let bytes = encode_playlist_indexes(indexes);
        let target = self.index_path();
        let temp = join(&self.cache_dir, "playlists.tmp");
        proof {
            reveal_strlit("playlists.index");
            reveal_strlit("playlists.tmp");
            assert("playlists.index"@.len() == 15);
            assert("playlists.tmp"@.len() == 13);
            lemma_join_unequal(self.cache_dir@, "playlists.tmp"@, "playlists.index"@);
        }
        let ghost before = store@;
        store.atomic_write(target, temp, bytes);
        proof {
            assert forall|name: Seq<char>|
                (name != spec_join(self.cache_dir@, "playlists.index"@) && name != spec_join(
                    self.cache_dir@,
                    "playlists.tmp"@,
                )) implies #[trigger] spec_lookup(final(store)@, name) == spec_lookup(
                before,
                name,
            ) by {
                lemma_atomic_write_preserves_others(
                    before,
                    spec_join(self.cache_dir@, "playlists.tmp"@),
                    spec_join(self.cache_dir@, "playlists.index"@),
                    bytes@,
                    name,
                );
            }
        }
    }

    /// Write one playlist's blobs atomically: its track list and its
    /// thumbnails, each through the temp-write-then-rename protocol, into
    /// the playlist's own directory.
    pub fn write_playlist(
        &self,
        store: &mut FileStore,
        dir: &String,
        playlist: &PlaylistCache,
        thumbnails: &ThumbnailsCached,
    )
        ensures
            spec_lookup(final(store)@, spec_join(dir@, "tracks.bin"@)) == Some(
                spec_enc_playlist(playlist@),
            ),
            spec_lookup(final(store)@, spec_join(dir@, "thumbnails.bin"@)) == Some(
                spec_enc_thumb_seq(thumbnails@),
            ),
            forall|name: Seq<char>|
                (name != spec_join(dir@, "tracks.bin"@) && name != spec_join(dir@, "tracks.tmp"@)
                    && name != spec_join(dir@, "thumbnails.bin"@) && name != spec_join(
                    dir@,
                    "thumbnails.tmp"@,
                )) ==> #[trigger] spec_lookup(final(store)@, name) == spec_lookup(old(store)@, name),
    {
        let tracks_bytes = encode_playlist_cache(playlist);
        let thumbs_bytes = encode_thumbnails_cached(thumbnails);
        let tracks_target = join(dir, "tracks.bin");
        let tracks_temp = join(dir, "tracks.tmp");
        let thumbs_target = join(dir, "thumbnails.bin");
        let thumbs_temp = join(dir, "thumbnails.tmp");
        proof {
            reveal_strlit("tracks.bin");
            reveal_strlit("tracks.tmp");
            reveal_strlit("thumbnails.bin");
            reveal_strlit("thumbnails.tmp");
            assert("tracks.bin"@[7] == 'b' && "tracks.tmp"@[7] == 't');
            lemma_join_unequal(dir@, "tracks.tmp"@, "tracks.bin"@);
            assert("thumbnails.bin"@[11] == 'b' && "thumbnails.tmp"@[11] == 't');
            lemma_join_unequal(dir@, "thumbnails.tmp"@, "thumbnails.bin"@);
            assert("tracks.bin"@.len() == 10 && "thumbnails.bin"@.len() == 14);
            lemma_join_unequal(dir@, "thumbnails.tmp"@, "tracks.bin"@);
            lemma_join_unequal(dir@, "thumbnails.bin"@, "tracks.bin"@);
        }
        let ghost before = store@;
        store.atomic_write(tracks_target, tracks_temp, tracks_bytes);
        let ghost mid = store@;
        store.atomic_write(thumbs_target, thumbs_temp, thumbs_bytes);
        proof {
            lemma_atomic_write_preserves_others(
                mid,
                spec_join(dir@, "thumbnails.tmp"@),
                spec_join(dir@, "thumbnails.bin"@),
                thumbs_bytes@,
                spec_join(dir@, "tracks.bin"@),
            );
            assert forall|name: Seq<char>|
                (name != spec_join(dir@, "tracks.bin"@) && name != spec_join(dir@, "tracks.tmp"@)
                    && name != spec_join(dir@, "thumbnails.bin"@) && name != spec_join(
                    dir@,
                    "thumbnails.tmp"@,
                )) implies #[trigger] spec_lookup(final(store)@, name) == spec_lookup(
                before,
                name,
            ) by {
                lemma_atomic_write_preserves_others(
                    before,
                    spec_join(dir@, "tracks.tmp"@),
                    spec_join(dir@, "tracks.bin"@),
                    tracks_bytes@,
                    name,
                );
                lemma_atomic_write_preserves_others(
                    mid,
                    spec_join(dir@, "thumbnails.tmp"@),
                    spec_join(dir@, "thumbnails.bin"@),
                    thumbs_bytes@,
                    name,
                );
            }
        }
    }

    /// Read one playlist's blobs back. The read succeeds exactly when both
    /// blobs are present and parse; anything missing or unreadable degrades
    /// to absent, and a result is always populated from both files, never
    /// partially.
    pub fn read_playlist(&self, store: &FileStore, dir: &String) -> (r: Option<
        (PlaylistCache, ThumbnailsCached),
    >)
        ensures
            r matches Some(p) ==> {
                &&& spec_lookup(store@, spec_join(dir@, "tracks.bin"@)) matches Some(tb)
                    && spec_parse_playlist(tb) == Some(p.0@)
                &&& spec_lookup(store@, spec_join(dir@, "thumbnails.bin"@)) matches Some(hb)
                    && spec_parse_thumbnails(hb) == Some(p.1@)
            },
            r is Some <==> ({
                &&& spec_lookup(store@, spec_join(dir@, "tracks.bin"@)) matches Some(tb)
                    && spec_parse_playlist(tb) is Some
                &&& spec_lookup(store@, spec_join(dir@, "thumbnails.bin"@)) matches Some(hb)
                    && spec_parse_thumbnails(hb) is Some
            }),
    {
        let tracks_path = join(dir, "tracks.bin");
        let thumbs_path = join(dir, "thumbnails.bin");
        let tracks_bytes = match store.lookup(&tracks_path) {
            Some(b) => b,
            None => {
                return None;
            },
        };
        let thumbs_bytes = match store.lookup(&thumbs_path) {
            Some(b) => b,
            None => {
                return None;
            },
        };
        let playlist = match decode_playlist_cache(&tracks_bytes) {
            Some(p) => p,
            None => {
                return None;
            },
        };
        let thumbs = match decode_thumbnails_cached(&thumbs_bytes) {
            Some(t) => t,
            None => {
                return None;
            },
        };
        Some((playlist, thumbs))
    }

    /// Write the playback snapshot atomically.
    pub fn write_app_state(&self, store: &mut FileStore, snapshot: &AppStateCache)
        ensures
            spec_lookup(final(store)@, spec_join(self.cache_dir@, "app_state.snapshot"@)) == Some(
                spec_enc_app_state(snapshot@),
            ),
            forall|name: Seq<char>|
                (name != spec_join(self.cache_dir@, "app_state.snapshot"@) && name != spec_join(
                    self.cache_dir@,
                    "app_state.tmp"@,
                )) ==> #[trigger] spec_lookup(final(store)@, name) == spec_lookup(old(store)@, name),
    {
        let bytes = encode_app_state_cache(snapshot);
        let target = join(&self.cache_dir, "app_state.snapshot");
        let temp = join(&self.cache_dir, "app_state.tmp");
        proof {
            reveal_strlit("app_state.snapshot");
            reveal_strlit("app_state.tmp");
            assert("app_state.snapshot"@.len() == 18);
            assert("app_state.tmp"@.len() == 13);
            lemma_join_unequal(self.cache_dir@, "app_state.tmp"@, "app_state.snapshot"@);
        }
        let ghost before = store@;
        store.atomic_write(target, temp, bytes);
        proof {
            assert forall|name: Seq<char>|
                (name != spec_join(self.cache_dir@, "app_state.snapshot"@) && name != spec_join(
                    self.cache_dir@,
                    "app_state.tmp"@,
                )) implies #[trigger] spec_lookup(final(store)@, name) == spec_lookup(
                before,
                name,
            ) by {
                lemma_atomic_write_preserves_others(
                    before,
                    spec_join(self.cache_dir@, "app_state.tmp"@),
                    spec_join(self.cache_dir@, "app_state.snapshot"@),
                    bytes@,
                    name,
                );
            }
        }
    }

    /// Read the playback snapshot back. The read succeeds exactly when the
    /// snapshot file is present, parses, and fits this platform; anything
    /// else degrades to absent.
    pub fn read_app_state(&self, store: &FileStore) -> (r: Option<AppStateCache>)
        ensures
            r matches Some(a) ==> {
                &&& spec_lookup(store@, spec_join(self.cache_dir@, "app_state.snapshot"@))
                    matches Some(bytes)
                &&& crate::cache::state::spec_parse_app_state(bytes) == Some(
                    ((a@.current, a@.state, a@.position, a@.volume as u64), (a@.mute, a@.shuffling,
                    a@.repeat, a@.index as u64, crate::cache::records::spec_order_as_u64s(
                        a@.queue_order,
                    ))),
                )
            },
            r is Some <==> ({
                &&& spec_lookup(store@, spec_join(self.cache_dir@, "app_state.snapshot"@))
                    matches Some(bytes)
                &&& crate::cache::state::spec_parse_app_state(bytes) matches Some(p)
                    && crate::cache::state::spec_app_state_fits_platform(p)
            }),
    {
        let path = join(&self.cache_dir, "app_state.snapshot");
        match store.lookup(&path) {
            Some(bytes) => decode_app_state_cache(&bytes),
            None => None,
        }
    }
}

/// The on-disk shape of tag metadata: the same fields, without the raw
/// artwork (thumbnails are cached in their own blob).
pub fn metadata_to_cache(m: &Metadata) -> (r: MetadataCache)
    ensures
        r.title@ == m.title@,
        r.artists@.map_values(|s: String| s@) == m.artists@.map_values(|s: String| s@),
        r.album@ == m.album@,
        r.genre@ == m.genre@,
        r.duration == m.duration,
        r.writer@ == m.writer@,
        r.producer@ == m.producer@,
        r.publisher@ == m.publisher@,
        r.label@ == m.label@,
{
    MetadataCache {
        title: m.title.clone(),
        artists: clone_strings(&m.artists),
        album: m.album.clone(),
        genre: m.genre.clone(),
        duration: m.duration,
        writer: m.writer.clone(),
        producer: m.producer.clone(),
        publisher: m.publisher.clone(),
        label: m.label.clone(),
    }
}

/// Tag metadata rebuilt from its on-disk shape; the artwork is gone, by
/// design.
pub fn metadata_from_cache(c: &MetadataCache) -> (r: Metadata)
    ensures
        r.title@ == c.title@,
        r.artists@.map_values(|s: String| s@) == c.artists@.map_values(|s: String| s@),
        r.album@ == c.album@,
        r.genre@ == c.genre@,
        r.duration == c.duration,
        r.writer@ == c.writer@,
        r.producer@ == c.producer@,
        r.publisher@ == c.publisher@,
        r.label@ == c.label@,
        r.thumbnail is None,
{
    Metadata {
        title: c.title.clone(),
        artists: clone_strings(&c.artists),
        album: c.album.clone(),
        genre: c.genre.clone(),
        duration: c.duration,
        writer: c.writer.clone(),
        producer: c.producer.clone(),
        publisher: c.publisher.clone(),
        label: c.label.clone(),
        thumbnail: None,
    }
}

/// The on-disk shape of one scanned file: its stat and its metadata.
pub fn track_to_cache(stat: &FileStat, m: &Metadata) -> (r: TrackCache)
    ensures
        r.path@ == stat.path@,
        r.size == stat.size,
        r.modified == stat.modified,
        r.meta.title@ == m.title@,
        r.meta.artists@.map_values(|s: String| s@) == m.artists@.map_values(|s: String| s@),
        r.meta.album@ == m.album@,
        r.meta.genre@ == m.genre@,
        r.meta.duration == m.duration,
        r.meta.writer@ == m.writer@,
        r.meta.producer@ == m.producer@,
        r.meta.publisher@ == m.publisher@,
        r.meta.label@ == m.label@,
{
    TrackCache {
        path: stat.path.clone(),
        size: stat.size,
        modified: stat.modified,
        meta: metadata_to_cache(m),
    }
}

/// The track a cached record stands for: the identity is recomputed from
/// the cached path, size and modification time, so an unchanged file gets
/// the identity it had when it was scanned.
pub fn track_from_cache(c: &TrackCache) -> (r: Track)
    ensures
        r.id.0@ == crate::track::spec_track_id(c.path@, c.size, c.modified),
        r.path@ == c.path@,
        r.title@ == c.meta.title@,
        r.duration == c.meta.duration,
        r.size == c.size,
        r.modified == c.modified,
{
    let stat = FileStat { path: c.path.clone(), size: c.size, modified: c.modified };
    let meta = metadata_from_cache(&c.meta);
    crate::scanner::build_track(&stat, &meta)
}

/// A copy of a list of strings.
fn clone_strings(items: &Vec<String>) -> (r: Vec<String>)
    ensures
        r@.map_values(|s: String| s@) == items@.map_values(|s: String| s@),
{
    let mut out: Vec<String> = Vec::new();
    let mut i: usize = 0;
    while i < items.len()
        invariant
            i <= items@.len(),
            out@.len() == i,
            forall|k: int| 0 <= k < i ==> (#[trigger] out@[k])@ == items@[k]@,
        decreases items@.len() - i,
    {
        out.push(items[i].clone());
        i = i + 1;
    }
    assert(out@.map_values(|s: String| s@) =~= items@.map_values(|s: String| s@));
    out
}

} // verus!
