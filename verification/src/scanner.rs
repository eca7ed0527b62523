//! The library scanner's logic: which files count as audio, how a scan is
//! planned around the already-known tracks, how degraded metadata is
//! synthesized for unreadable tags, how tracks and playlists are assembled,
//! and the generation counter that cancels superseded thumbnail work.
//!
//! The host walks directories, reads tags and spawns workers; everything it
//! learns comes back here as plain values.

use vstd::prelude::*;

use crate::metadata::Metadata;
use crate::playlist::{Playlist, PlaylistSource, new_playlist_id};
use crate::track::{Track, TrackId, gen_track_id, spec_track_id};

verus! {

/// What the host reports of one candidate file: its absolute path, its size
/// in bytes, and its modification time in seconds.
#[derive(Clone, Debug)]
pub struct FileStat {
    pub path: String,
    pub size: u64,
    pub modified: u64,
}

/// The abstract value of a `FileStat`.
pub ghost struct FileStatV {
    pub path: Seq<char>,
    pub size: u64,
    pub modified: u64,
}

impl View for FileStat {
    type V = FileStatV;

    open spec fn view(&self) -> FileStatV {
        FileStatV { path: self.path@, size: self.size, modified: self.modified }
    }
}

/// The identity the file would get.
pub open spec fn spec_file_id(f: FileStatV) -> Seq<u8> {
    spec_track_id(f.path, f.size, f.modified)
}

/// Commands the scanner accepts.
pub enum ScannerCommand {
    ScanFolder { path: String, tracks: Vec<TrackId> },
    GetTrackMetadata { path: String, track_id: TrackId },
}

/// Events the scanner emits towards the controller.
#[derive(Clone, Debug)]
pub enum ScannerEvent {
    Tracks(Vec<Track>),
    Playlist(Playlist),
    TrackMetadata {
        path: String,
        track_id: TrackId,
        title: String,
        artist: String,
        album: String,
        duration: u64,
        size: u64,
        modified: u64,
    },
    Thumbnail { path: String, width: u32, height: u32, image: Vec<u8>, generation: u64 },
}

// ------------------------------------------------------------ extensions

/// Case folding for the letters that can occur in a supported extension;
/// every other character is left alone, which suffices because it could
/// never match one anyway.
pub open spec fn spec_ext_lower(c: char) -> char {
    if c == 'M' {
        'm'
    } else if c == 'P' {
        'p'
    } else if c == 'F' {
        'f'
    } else if c == 'L' {
        'l'
    } else if c == 'A' {
        'a'
    } else if c == 'C' {
        'c'
    } else if c == 'W' {
        'w'
    } else if c == 'V' {
        'v'
    } else if c == 'O' {
        'o'
    } else if c == 'G' {
        'g'
    } else {
        c
    }
}

/// Where the file's name starts: one past the last path separator.
pub open spec fn spec_name_start(p: Seq<char>) -> int
    decreases p.len(),
{
    if p.len() == 0 {
        0
    } else if p.last() == '/' {
        p.len() as int
    } else {
        spec_name_start(p.drop_last())
    }
}

/// Where the file's extension starts: one past the last dot inside the
/// name, or the path's end if the name has no dot.
pub open spec fn spec_ext_start(p: Seq<char>) -> int
    decreases p.len(),
{
    if p.len() <= spec_name_start(p) {
        p.len() as int
    } else if p.last() == '.' {
        p.len() as int
    } else {
        spec_ext_start(p.drop_last())
    }
}

/// The extension, case-folded.
pub open spec fn spec_extension(p: Seq<char>) -> Seq<char> {
    p.subrange(spec_ext_start(p), p.len() as int).map_values(|c: char| spec_ext_lower(c))
}

/// Whether the path names a supported audio file: its extension is one of
/// mp3, flac, wav, ogg, m4a, compared without regard to case.
pub open spec fn spec_is_supported(p: Seq<char>) -> bool {
    ||| spec_extension(p) == "mp3"@
    ||| spec_extension(p) == "flac"@
    ||| spec_extension(p) == "wav"@
    ||| spec_extension(p) == "ogg"@
    ||| spec_extension(p) == "m4a"@
}

/// The file's name without its extension: what a degraded track is titled.
pub open spec fn spec_filename_stem(p: Seq<char>) -> Seq<char> {
    if spec_ext_start(p) > spec_name_start(p) {
        p.subrange(spec_name_start(p), spec_ext_start(p) - 1)
    } else {
        p.subrange(spec_name_start(p), p.len() as int)
    }
}

/// Find one past the last occurrence of `c`, or 0 if there is none —
/// executing the spec scans above.
fn index_after_last(path: &str, c: char, from: usize) -> (r: usize)
    requires
        from <= path@.len(),
    ensures
        r <= path@.len(),
        r >= from,
        forall|j: int| r <= j < path@.len() ==> path@[j] != c,
        r > from ==> path@[r - 1] == c,
{
    let n = path.unicode_len();
    let mut i: usize = n;
    while i > from
        invariant
            from <= i <= n,
            n == path@.len(),
            forall|j: int| i <= j < path@.len() ==> path@[j] != c,
        decreases i,
    {
        if path.get_char(i - 1) == c {
            return i;
        }
        i = i - 1;
    }
    from
}

/// `spec_name_start` is the position one past the last separator.
proof fn lemma_name_start_char(p: Seq<char>)
    ensures
        0 <= spec_name_start(p) <= p.len(),
        forall|j: int| spec_name_start(p) <= j < p.len() ==> p[j] != '/',
        spec_name_start(p) > 0 ==> p[spec_name_start(p) - 1] == '/',
    decreases p.len(),
{
    if p.len() > 0 && p.last() != '/' {
        lemma_name_start_char(p.drop_last());
        assert(forall|j: int| 0 <= j < p.len() - 1 ==> p[j] == p.drop_last()[j]);
    }
}

/// `spec_ext_start` is the position one past the last dot inside the name.
proof fn lemma_ext_start_char(p: Seq<char>)
    ensures
        spec_name_start(p) <= spec_ext_start(p) <= p.len(),
        forall|j: int| spec_ext_start(p) <= j < p.len() ==> p[j] != '.',
        spec_ext_start(p) > spec_name_start(p) ==> p[spec_ext_start(p) - 1] == '.',
    decreases p.len(),
{
    lemma_name_start_char(p);
    if p.len() > spec_name_start(p) && p.last() != '.' {
        lemma_ext_start_char(p.drop_last());
        assert(p.drop_last().len() == p.len() - 1);
        if p.drop_last().len() > 0 {
            assert(forall|j: int| 0 <= j < p.len() - 1 ==> p[j] == p.drop_last()[j]);
        }
        assert(spec_name_start(p.drop_last()) == spec_name_start(p)) by {
            lemma_name_start_drop_last(p);
        }
    }
}

/// Dropping a last character that is no separator keeps the name's start.
proof fn lemma_name_start_drop_last(p: Seq<char>)
    requires
        p.len() > 0,
        p.last() != '/',
    ensures
        spec_name_start(p) == spec_name_start(p.drop_last()),
{
}

/// Whether the path names a supported audio file.
pub fn is_supported(path: &str) -> (r: bool)
    ensures
        r == spec_is_supported(path@),
{
    proof {
        lemma_ext_start_char(path@);
        lemma_name_start_char(path@);
    }
    let name_start = index_after_last(path, '/', 0);
    proof {
        lemma_last_position_is_spec(path@, name_start as int);
    }
    let ext_start = index_after_last(path, '.', name_start);
    proof {
        lemma_ext_position_is_spec(path@, name_start as int, ext_start as int);
    }
    let n = path.unicode_len();
    let len = n - ext_start;
    if len != 3 && len != 4 {
        proof {
            reveal_strlit("mp3");
            reveal_strlit("flac");
            reveal_strlit("wav");
            reveal_strlit("ogg");
            reveal_strlit("m4a");
            assert(spec_extension(path@).len() == n - ext_start);
            assert("mp3"@.len() == 3 && "wav"@.len() == 3 && "ogg"@.len() == 3 && "m4a"@.len() == 3
                && "flac"@.len() == 4);
        }
        return false;
    }
    let mut ext: [char; 4] = [' ', ' ', ' ', ' '];
    let c0 = ext_lower(path.get_char(ext_start));
    let c1 = ext_lower(path.get_char(ext_start + 1));
    let c2 = ext_lower(path.get_char(ext_start + 2));
    let c3: char = if len == 4 {
        ext_lower(path.get_char(ext_start + 3))
    } else {
        ' '
    };
    proof {
        reveal_strlit("mp3");
        reveal_strlit("flac");
        reveal_strlit("wav");
        reveal_strlit("ogg");
        reveal_strlit("m4a");
        assert(spec_extension(path@).len() == len);
        assert(spec_extension(path@)[0] == spec_ext_lower(path@[ext_start as int]));
        assert(spec_extension(path@)[1] == spec_ext_lower(path@[ext_start + 1 as int]));
        assert(spec_extension(path@)[2] == spec_ext_lower(path@[ext_start + 2 as int]));
        if len == 4 {
            assert(spec_extension(path@)[3] == spec_ext_lower(path@[ext_start + 3 as int]));
        }
    }
    if len == 3 {
        let r = (c0 == 'm' && c1 == 'p' && c2 == '3') || (c0 == 'w' && c1 == 'a' && c2 == 'v') || (
        c0 == 'o' && c1 == 'g' && c2 == 'g') || (c0 == 'm' && c1 == '4' && c2 == 'a');
        proof {
            if r {
                assert(spec_is_supported(path@)) by {
                    if c0 == 'm' && c1 == 'p' && c2 == '3' {
                        assert(spec_extension(path@) =~= "mp3"@);
                    } else if c0 == 'w' && c1 == 'a' && c2 == 'v' {
                        assert(spec_extension(path@) =~= "wav"@);
                    } else if c0 == 'o' && c1 == 'g' && c2 == 'g' {
                        assert(spec_extension(path@) =~= "ogg"@);
                    } else {
                        assert(spec_extension(path@) =~= "m4a"@);
                    }
                }
            } else {
                assert(!spec_is_supported(path@));
            }
        }
        r
    } else {
        let r = c0 == 'f' && c1 == 'l' && c2 == 'a' && c3 == 'c';
        proof {
            if r {
                assert(spec_extension(path@) =~= "flac"@);
            } else {
                assert(!spec_is_supported(path@));
            }
        }
        r
    }
}

/// A scan from the end that stopped at a separator found the name's start.
proof fn lemma_last_position_is_spec(p: Seq<char>, pos: int)
    requires
        0 <= pos <= p.len(),
        forall|j: int| pos <= j < p.len() ==> p[j] != '/',
        pos > 0 ==> p[pos - 1] == '/',
    ensures
        pos == spec_name_start(p),
    decreases p.len(),
{
    lemma_name_start_char(p);
    if pos < spec_name_start(p) {
        assert(p[spec_name_start(p) - 1] == '/');
    } else if pos > spec_name_start(p) {
        assert(p[pos - 1] == '/');
    }
}

/// A scan from the end that stopped at a dot inside the name found the
/// extension's start.
proof fn lemma_ext_position_is_spec(p: Seq<char>, name_start: int, pos: int)
    requires
        name_start == spec_name_start(p),
        name_start <= pos <= p.len(),
        forall|j: int| pos <= j < p.len() ==> p[j] != '.',
        pos > name_start ==> p[pos - 1] == '.',
    ensures
        pos == spec_ext_start(p),
{
    lemma_ext_start_char(p);
    if pos < spec_ext_start(p) {
        assert(p[spec_ext_start(p) - 1] == '.');
    } else if pos > spec_ext_start(p) {
        assert(p[pos - 1] == '.');
    }
}

/// Case folding of one extension character.
fn ext_lower(c: char) -> (r: char)
    ensures
        r == spec_ext_lower(c),
{
    if c == 'M' {
        'm'
    } else if c == 'P' {
        'p'
    } else if c == 'F' {
        'f'
    } else if c == 'L' {
        'l'
    } else if c == 'A' {
        'a'
    } else if c == 'C' {
        'c'
    } else if c == 'W' {
        'w'
    } else if c == 'V' {
        'v'
    } else if c == 'O' {
        'o'
    } else if c == 'G' {
        'g'
    } else {
        c
    }
}

/// The file's name without its extension.
pub fn filename_stem(path: &str) -> (r: String)
    ensures
        r@ == spec_filename_stem(path@),
{
    proof {
        lemma_name_start_char(path@);
        lemma_ext_start_char(path@);
    }
    let name_start = index_after_last(path, '/', 0);
    proof {
        lemma_last_position_is_spec(path@, name_start as int);
    }
    let ext_start = index_after_last(path, '.', name_start);
    proof {
        lemma_ext_position_is_spec(path@, name_start as int, ext_start as int);
    }
    let n = path.unicode_len();
    if ext_start > name_start {
        let s = path.substring_char(name_start, ext_start - 1);
        s.to_owned()
    } else {
        let s = path.substring_char(name_start, n);
        s.to_owned()
    }
}


// ------------------------------------------------------------ degraded metadata

/// Metadata synthesized for a file whose tags cannot be read: the file is
/// still included, titled by its filename, with placeholder credits and no
/// duration.
pub fn fallback_metadata(path: &str) -> (r: Metadata)
    ensures
        r.title@ == spec_filename_stem(path@),
        r.artists@.len() == 1,
        r.artists@[0]@ == "Unknown Artist"@,
        r.album@ == "Unknown Album"@,
        r.genre@.len() == 0,
        r.duration == 0,
        r.writer@.len() == 0,
        r.producer@.len() == 0,
        r.publisher@.len() == 0,
        r.label@.len() == 0,
        r.thumbnail is None,
{
    let title = filename_stem(path);
    let mut artists: Vec<String> = Vec::new();
    artists.push("Unknown Artist".to_owned());
    Metadata {
        title,
        artists,
        album: "Unknown Album".to_owned(),
        genre: String::new(),
        duration: 0,
        writer: String::new(),
        producer: String::new(),
        publisher: String::new(),
        label: String::new(),
        thumbnail: None,
    }
}

// ------------------------------------------------------------ building tracks

/// Assemble the immutable track record for a file from its stat and its
/// (possibly synthesized) metadata. The artist is the first listed one, or
/// a placeholder when the tags name none.
pub fn build_track(stat: &FileStat, meta: &Metadata) -> (r: Track)
    ensures
        r.id.0@ == spec_file_id(stat@),
        r.path@ == stat.path@,
        r.title@ == meta.title@,
        meta.artists@.len() > 0 ==> r.artist@ == meta.artists@[0]@,
        meta.artists@.len() == 0 ==> r.artist@ == "Unknown Artist"@,
        r.album@ == meta.album@,
        r.duration == meta.duration,
        r.size == stat.size,
        r.modified == stat.modified,
{
    let id = gen_track_id(stat.path.as_str(), stat.size, stat.modified);
    let artist: String = if meta.artists.len() > 0 {
        meta.artists[0].clone()
    } else {
        "Unknown Artist".to_owned()
    };
    Track {
        id,
        path: stat.path.clone(),
        title: meta.title.clone(),
        artist,
        album: meta.album.clone(),
        duration: meta.duration,
        size: stat.size,
        modified: stat.modified,
    }
}

// ------------------------------------------------------------ planning a scan

/// Whether one of the known identities is this one.
pub open spec fn spec_known_contains(known: Seq<TrackId>, id: Seq<u8>) -> bool {
    exists|j: int| 0 <= j < known.len() && (#[trigger] known[j]).0@ == id
}

/// The files a scan must still extract metadata for: those whose identity
/// is not already known.
pub open spec fn spec_to_extract(files: Seq<FileStatV>, known: Seq<TrackId>) -> Seq<FileStatV>
    decreases files.len(),
{
    if files.len() == 0 {
        Seq::empty()
    } else {
        let rest = spec_to_extract(files.drop_last(), known);
        if spec_known_contains(known, spec_file_id(files.last())) {
            rest
        } else {
            rest.push(files.last())
        }
    }
}

/// A planned scan: every file's identity in walk order, and the files whose
/// metadata must still be extracted.
pub struct ScanPlan {
    pub order: Vec<TrackId>,
    pub to_extract: Vec<FileStat>,
}

/// Whether a known identity equals this file's.
fn known_contains(known: &Vec<TrackId>, id: &TrackId) -> (r: bool)
    ensures
        r == spec_known_contains(known@, id.0@),
{
    let mut j: usize = 0;
    while j < known.len()
        invariant
            j <= known@.len(),
            forall|k: int| 0 <= k < j ==> (#[trigger] known@[k]).0@ != id.0@,
        decreases known@.len() - j,
    {
        if known[j] == *id {
            assert(known@[j as int].0@ == id.0@);
            return true;
        }
        j = j + 1;
    }
    false
}

/// Plan a scan: compute every candidate's identity, and keep for extraction
/// exactly the files whose identity is not in `known` — re-scanning an
/// unchanged folder therefore extracts nothing.
pub fn plan_scan(files: &Vec<FileStat>, known: &Vec<TrackId>) -> (r: ScanPlan)
    ensures
        r.order@.len() == files@.len(),
        forall|i: int|
            0 <= i < files@.len() ==> (#[trigger] r.order@[i]).0@ == spec_file_id(files@[i]@),
        r.to_extract@.map_values(|f: FileStat| f@) == spec_to_extract(
            files@.map_values(|f: FileStat| f@),
            known@,
        ),
{
    let ghost views = files@.map_values(|f: FileStat| f@);
    let mut order: Vec<TrackId> = Vec::new();
    let mut to_extract: Vec<FileStat> = Vec::new();
    let mut i: usize = 0;
    while i < files.len()
        invariant
            i <= files@.len(),
            views == files@.map_values(|f: FileStat| f@),
            order@.len() == i,
            forall|k: int|
                0 <= k < i ==> (#[trigger] order@[k]).0@ == spec_file_id(files@[k]@),
            to_extract@.map_values(|f: FileStat| f@) == spec_to_extract(
                views.take(i as int),
                known@,
            ),
        decreases files@.len() - i,
    {
        proof {
            assert(views[i as int] == files@[i as int]@);
        }
        let id = gen_track_id(files[i].path.as_str(), files[i].size, files[i].modified);
        assert(id.0@ == spec_file_id(views[i as int]));
        let is_known = known_contains(known, &id);
        proof {
            assert(views.take(i + 1 as int).drop_last() =~= views.take(i as int));
            assert(views.take(i + 1 as int).last() == views[i as int]);
        }
        if !is_known {
            to_extract.push(files[i].clone_stat());
            proof {
                assert(to_extract@.map_values(|f: FileStat| f@) =~= spec_to_extract(
                    views.take(i as int),
                    known@,
                ).push(views[i as int]));
            }
        }
        order.push(id);
        i = i + 1;
    }
    assert(views.take(files@.len() as int) =~= views);
    ScanPlan { order, to_extract }
}

impl FileStat {
    /// A copy of this stat.
    pub fn clone_stat(&self) -> (r: FileStat)
        ensures
            r@ == self@,
    {
        FileStat { path: self.path.clone(), size: self.size, modified: self.modified }
    }
}

/// Re-scanning an unchanged folder with the identities learned from the
/// first pass extracts metadata for no file at all.
pub proof fn lemma_rescan_extracts_nothing(files: Seq<FileStatV>, known: Seq<TrackId>)
    requires
        forall|i: int|
            0 <= i < files.len() ==> spec_known_contains(known, spec_file_id(#[trigger] files[i])),
    ensures
        spec_to_extract(files, known) == Seq::<FileStatV>::empty(),
    decreases files.len(),
{
    if files.len() > 0 {
        assert(spec_known_contains(known, spec_file_id(files[files.len() - 1])));
        lemma_rescan_extracts_nothing(files.drop_last(), known);
    }
}

/// The dedup invariant, end to end: when the known identities are exactly
/// the ones the first scan computed for these same unchanged files, the
/// second scan extracts metadata for no file at all.
pub proof fn lemma_second_scan_extracts_nothing(files: Seq<FileStatV>, known: Seq<TrackId>)
    requires
        known.len() == files.len(),
        forall|i: int| 0 <= i < files.len() ==> (#[trigger] known[i]).0@ == spec_file_id(files[i]),
    ensures
        spec_to_extract(files, known) == Seq::<FileStatV>::empty(),
{
    assert forall|i: int| 0 <= i < files.len() implies spec_known_contains(
        known,
        spec_file_id(#[trigger] files[i]),
    ) by {
        assert(known[i].0@ == spec_file_id(files[i]));
    }
    lemma_rescan_extracts_nothing(files, known);
}

// ------------------------------------------------------------ assembling playlists

/// Assemble the playlist for a finished folder scan: a fresh identity, the
/// folder's name as display name, the folder as provenance, and the track
/// identities in walk order.
pub fn assemble_playlist(folder: &str, order: Vec<TrackId>) -> (r: Playlist)
    ensures
        r.name@ == spec_filename_stem(folder@),
        r.source matches PlaylistSource::Folder(p) && p@ == folder@,
        r.tracks@ == order@,
{
    let name = filename_stem(folder);
    Playlist { id: new_playlist_id(), name, source: PlaylistSource::Folder(folder.to_owned()), tracks: order }
}

// ------------------------------------------------------------ cancellation

/// The scan generation counter. Each `ScanFolder` names a fresh generation;
/// background thumbnail work carries the generation it was started under,
/// and is dropped when it reports back under a superseded one.
pub struct ScanSession {
    pub current_gen: u64,
}

impl ScanSession {
    /// No scan has started yet.
    pub fn new() -> (r: ScanSession)
        ensures
            r.current_gen == 0,
    {
        ScanSession { current_gen: 0 }
    }

    /// Begin a new scan: all earlier generations are superseded from this
    /// moment on.
    pub fn start_scan(&mut self) -> (gen: u64)
        requires
            old(self).current_gen < u64::MAX,
        ensures
            final(self).current_gen == old(self).current_gen + 1,
            gen == final(self).current_gen,
            gen > old(self).current_gen,
    {
        self.current_gen = self.current_gen + 1;
        self.current_gen
    }

    /// Whether work of the given generation may still emit events.
    pub fn may_emit(&self, work_gen: u64) -> (r: bool)
        ensures
            r == (work_gen == self.current_gen),
    {
        work_gen == self.current_gen
    }

    /// Gate a finished thumbnail behind its generation: an event comes out
    /// exactly when the generation is still current, so no thumbnail of a
    /// superseded scan is delivered once a new scan has begun.
    pub fn emit_thumbnail(
        &self,
        work_gen: u64,
        path: String,
        width: u32,
        height: u32,
        image: Vec<u8>,
    ) -> (r: Option<ScannerEvent>)
        ensures
            work_gen == self.current_gen ==> {
                &&& r matches Some(e)
                &&& e matches ScannerEvent::Thumbnail {
                    path: p,
                    width: w,
                    height: h,
                    image: im,
                    generation: g,
                } && p@ == path@ && w == width && h == height && im@ == image@ && g == work_gen
            },
            work_gen != self.current_gen ==> r is None,
    {
        if work_gen == self.current_gen {
            Some(ScannerEvent::Thumbnail { path, width, height, image, generation: work_gen })
        } else {
            None
        }
    }
}

/// Work of a generation older than the session's never emits: generations
/// only grow, so once a second scan has started, the first scan's thumbnail
/// work is silent from its next check onwards.
pub proof fn lemma_superseded_scan_is_silent(session: ScanSession, work_gen: u64)
    requires
        work_gen < session.current_gen,
    ensures
        work_gen != session.current_gen,
{
}

// ------------------------------------------------------------ worker pools

/// The size of a CPU-bound worker pool: all cores but the reserved ones,
/// and never less than one worker.
pub fn worker_count(cores: usize, reserved: usize) -> (r: usize)
    ensures
        r == if cores > reserved {
            if cores - reserved > 1 {
                (cores - reserved) as int
            } else {
                1
            }
        } else {
            1
        },
        r >= 1,
{
    if cores > reserved && cores - reserved > 1 {
        cores - reserved
    } else {
        1
    }
}

/// Relies on num_cpus::get: the number of CPUs available to this process,
/// at least 1 (its documentation guarantees the lower bound).
#[verifier::external_body]
pub fn available_cores() -> (r: usize)
    ensures
        r >= 1,
{
    num_cpus::get()
}

// ------------------------------------------------------------ cover art

/// The image a byte string decodes to, as RGBA pixels with its dimensions,
/// or nothing when the bytes are no image. The result depends on the bytes
/// alone.
pub uninterp spec fn decoded_rgba(bytes: Seq<u8>) -> Option<(u32, u32, Seq<u8>)>;

/// The 64-by-64 downscale of an RGBA image, as raw pixel bytes. The result
/// depends on the dimensions and pixels alone.
pub uninterp spec fn thumb64_of(width: u32, height: u32, pixels: Seq<u8>) -> Seq<u8>;

/// Relies on image::load_from_memory and DynamicImage::into_rgba8: decode
/// the byte string into an RGBA pixel buffer of the image's dimensions;
/// bytes that are no supported image are reported as an error. The pixel
/// buffer holds four bytes per pixel.
#[verifier::external_body]
fn decode_rgba(bytes: &Vec<u8>) -> (r: Option<(u32, u32, Vec<u8>)>)
    ensures
        r matches Some(p) ==> decoded_rgba(bytes@) == Some((p.0, p.1, p.2@)) && p.2@.len() == 4
            * (p.0 as nat) * (p.1 as nat),
        r is None ==> decoded_rgba(bytes@) is None,
{
    match image::load_from_memory(bytes.as_slice()) {
        Ok(img) => {
            let rgba = img.into_rgba8();
            let (w, h) = rgba.dimensions();
            Some((w, h, rgba.into_raw()))
        },
        Err(_) => None,
    }
}

/// Relies on image::RgbaImage::from_raw and image::imageops::thumbnail:
/// rebuild the image from its pixels and resize it to exactly 64 by 64.
/// `from_raw` accepts any buffer of exactly four bytes per pixel, and
/// `thumbnail` always yields a buffer of the requested dimensions, so under
/// the stated bound a result always comes back.
#[verifier::external_body]
fn downscale_64(width: u32, height: u32, pixels: Vec<u8>) -> (r: Option<Vec<u8>>)
    requires
        pixels@.len() == 4 * (width as nat) * (height as nat),
    ensures
        r is Some,
        r matches Some(p) ==> p@ == thumb64_of(width, height, pixels@) && p@.len() == 4 * 64 * 64,
{
    let img = image::RgbaImage::from_raw(width, height, pixels)?;
    let small = image::imageops::thumbnail(&img, 64, 64);
    Some(small.into_raw())
}

/// A copy of a pixel buffer.
fn copy_image_bytes(b: &Vec<u8>) -> (r: Vec<u8>)
    ensures
        r@ == b@,
{
    vstd::slice::slice_to_vec(b.as_slice())
}

/// One unit of thumbnail work: decode the embedded art, downscale it for
/// list rendering, and emit the event only if the scan that requested it is
/// still the current one.
pub fn process_thumbnail(
    session: &ScanSession,
    work_gen: u64,
    path: String,
    art: &Vec<u8>,
) -> (r: Option<(ScannerEvent, Vec<u8>)>)
    ensures
        work_gen != session.current_gen ==> r is None,
        work_gen == session.current_gen ==> (r is Some <==> decoded_rgba(art@) is Some),
        r matches Some(p) ==> work_gen == session.current_gen && decoded_rgba(art@) is Some && (
        p.0 matches ScannerEvent::Thumbnail { path: ep, width, height, image, generation } && ep@
            == path@ && width == 64 && height == 64 && image@ == p.1@ && generation == work_gen),
{
    if !session.may_emit(work_gen) {
        return None;
    }
    let (w, h, pixels) = match decode_rgba(art) {
        Some(x) => x,
        None => {
            return None;
        },
    };
    let small = match downscale_64(w, h, pixels) {
        Some(x) => x,
        None => {
            return None;
        },
    };
    let stored = copy_image_bytes(&small);
    match session.emit_thumbnail(work_gen, path, 64, 64, small) {
        Some(e) => Some((e, stored)),
        None => None,
    }
}

} // verus!
