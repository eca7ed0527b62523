//! Track identity and track records.
//!
//! A `TrackId` is a content-derived identity for an audio file: the BLAKE3
//! digest of the file's absolute path, its size in bytes, and its
//! modification time. The three inputs are framed injectively, so two
//! distinct `(path, size, modified)` triples never feed the hasher the same
//! bytes, and the id is a pure function of the triple.

use vstd::prelude::*;
use vstd::bytes::{spec_u64_to_le_bytes, u64_to_le_bytes, lemma_auto_spec_u64_to_from_le_bytes};
use vstd::string::StringSliceAdditionalSpecFns;

verus! {

/// Stable, content-derived identity of a track: a 256-bit BLAKE3 digest.
#[derive(Clone, Copy, Debug, Hash)]
pub struct TrackId(pub [u8; 32]);

impl PartialEq for TrackId {
    fn eq(&self, other: &TrackId) -> (r: bool) {
        let mut i: usize = 0;
        while i < 32
            invariant
                i <= 32,
                self.0@.subrange(0, i as int) == other.0@.subrange(0, i as int),
            decreases 32 - i,
        {
            if self.0[i] != other.0[i] {
                assert(self.0@[i as int] != other.0@[i as int]);
                return false;
            }
            assert(self.0@.subrange(0, i + 1 as int) =~= self.0@.subrange(0, i as int).push(
                self.0@[i as int],
            ));
            assert(other.0@.subrange(0, i + 1 as int) =~= other.0@.subrange(0, i as int).push(
                other.0@[i as int],
            ));
            i = i + 1;
        }
        assert(self.0@ =~= self.0@.subrange(0, 32));
        assert(other.0@ =~= other.0@.subrange(0, 32));
        true
    }
}

impl Eq for TrackId {}

impl vstd::std_specs::cmp::PartialEqSpecImpl for TrackId {
    open spec fn obeys_eq_spec() -> bool {
        true
    }

    open spec fn eq_spec(&self, other: &TrackId) -> bool {
        self.0@ == other.0@
    }
}

/// A discovered track. Created once by the scanner (or loaded from cache)
/// and never mutated afterwards; a changed file gets a fresh `TrackId` and a
/// fresh `Track`.
#[derive(Clone, Debug)]
pub struct Track {
    pub id: TrackId,
    pub path: String,
    pub title: String,
    pub artist: String,
    pub album: String,
    pub duration: u64,
    pub size: u64,
    pub modified: u64,
}

impl Track {
    /// Field-wise equality of two tracks, over the views of the text fields.
    pub open spec fn same_as(&self, other: &Track) -> bool {
        &&& self.id.0@ == other.id.0@
        &&& self.path@ == other.path@
        &&& self.title@ == other.title@
        &&& self.artist@ == other.artist@
        &&& self.album@ == other.album@
        &&& self.duration == other.duration
        &&& self.size == other.size
        &&& self.modified == other.modified
    }
}

impl PartialEq for Track {
    fn eq(&self, other: &Track) -> (r: bool) {
        self.id == other.id && self.path == other.path && self.title == other.title
            && self.artist == other.artist && self.album == other.album && self.duration
            == other.duration && self.size == other.size && self.modified == other.modified
    }
}

impl Eq for Track {}

impl vstd::std_specs::cmp::PartialEqSpecImpl for Track {
    open spec fn obeys_eq_spec() -> bool {
        true
    }

    open spec fn eq_spec(&self, other: &Track) -> bool {
        self.same_as(other)
    }
}

/// The BLAKE3 digest of a byte sequence, 32 bytes wide. The digest is a
/// function of the input bytes alone, which is all the contracts here rely
/// on; nothing in this crate states what the digest bytes are.
pub uninterp spec fn blake3_of(bytes: Seq<u8>) -> Seq<u8>;

/// Relies on blake3::hash: a 32-byte digest computed from the input bytes
/// alone (same bytes, same digest, on every machine).
#[verifier::external_body]
fn blake3_hash(bytes: &Vec<u8>) -> (r: [u8; 32])
    ensures
        r@ == blake3_of(bytes@),
        r@.len() == 32,
{
    *blake3::hash(bytes.as_slice()).as_bytes()
}

/// The bytes fed to the hasher for a `(path, size, modified)` triple: the
/// UTF-8 bytes of the path, then the size and the modification time, each as
/// eight little-endian bytes.
pub open spec fn spec_track_id_input(path: Seq<char>, size: u64, modified: u64) -> Seq<u8> {
    vstd::utf8::encode_utf8(path) + spec_u64_to_le_bytes(size) + spec_u64_to_le_bytes(modified)
}

/// What `gen_track_id` returns: the digest of the framed triple.
pub open spec fn spec_track_id(path: Seq<char>, size: u64, modified: u64) -> Seq<u8> {
    blake3_of(spec_track_id_input(path, size, modified))
}

/// Compute the stable identity of a file from its absolute path, size and
/// modification time.
pub fn gen_track_id(path: &str, size: u64, modified: u64) -> (r: TrackId)
    ensures
        r.0@ == spec_track_id(path@, size, modified),
{
    let path_bytes = path.as_bytes();
    let mut input: Vec<u8> = Vec::new();
    let mut i: usize = 0;
    while i < path_bytes.len()
        invariant
            i <= path_bytes.len(),
            input@ == path_bytes@.subrange(0, i as int),
        decreases path_bytes.len() - i,
    {
        input.push(path_bytes[i]);
        i = i + 1;
    }
    assert(input@ =~= path_bytes@);
    let size_bytes = u64_to_le_bytes(size);
    let modified_bytes = u64_to_le_bytes(modified);
    let mut j: usize = 0;
    while j < size_bytes.len()
        invariant
            j <= size_bytes.len(),
            input@ == path_bytes@ + size_bytes@.subrange(0, j as int),
        decreases size_bytes.len() - j,
    {
        input.push(size_bytes[j]);
        j = j + 1;
    }
    assert(input@ =~= path_bytes@ + size_bytes@);
    let mut k: usize = 0;
    while k < modified_bytes.len()
        invariant
            k <= modified_bytes.len(),
            input@ == path_bytes@ + size_bytes@ + modified_bytes@.subrange(0, k as int),
        decreases modified_bytes.len() - k,
    {
        input.push(modified_bytes[k]);
        k = k + 1;
    }
    assert(input@ =~= path_bytes@ + size_bytes@ + modified_bytes@);
    assert(input@ == spec_track_id_input(path@, size, modified));
    TrackId(blake3_hash(&input))
}

/// The id is a pure function of the triple: computing it twice over equal
/// inputs yields equal ids.
pub proof fn lemma_track_id_deterministic(
    path1: Seq<char>,
    size1: u64,
    modified1: u64,
    path2: Seq<char>,
    size2: u64,
    modified2: u64,
)
    requires
        path1 == path2,
        size1 == size2,
        modified1 == modified2,
    ensures
        spec_track_id(path1, size1, modified1) == spec_track_id(path2, size2, modified2),
{
}

/// The framing of the hasher input is injective: two triples that disagree
/// in the path, the size or the modification time feed the hasher different
/// byte sequences. (That distinct inputs then yield distinct digests is the
/// collision resistance of BLAKE3, which no proof here claims.)
pub proof fn lemma_track_id_input_injective(
    path1: Seq<char>,
    size1: u64,
    modified1: u64,
    path2: Seq<char>,
    size2: u64,
    modified2: u64,
)
    requires
        spec_track_id_input(path1, size1, modified1) == spec_track_id_input(
            path2,
            size2,
            modified2,
        ),
    ensures
        path1 == path2,
        size1 == size2,
        modified1 == modified2,
{
    lemma_auto_spec_u64_to_from_le_bytes();
    let b1 = vstd::utf8::encode_utf8(path1);
    let b2 = vstd::utf8::encode_utf8(path2);
    let w1 = spec_track_id_input(path1, size1, modified1);
    let w2 = spec_track_id_input(path2, size2, modified2);
    assert(w1.len() == b1.len() + 16);
    assert(w2.len() == b2.len() + 16);
    assert(b1.len() == b2.len());
    assert(b1 =~= w1.subrange(0, b1.len() as int));
    assert(b2 =~= w2.subrange(0, b2.len() as int));
    assert(b1 == b2);
    vstd::utf8::encode_utf8_decode_utf8(path1);
    vstd::utf8::encode_utf8_decode_utf8(path2);
    assert(path1 == path2);
    let n = b1.len() as int;
    assert(spec_u64_to_le_bytes(size1) =~= w1.subrange(n, n + 8));
    assert(spec_u64_to_le_bytes(size2) =~= w2.subrange(n, n + 8));
    assert(spec_u64_to_le_bytes(modified1) =~= w1.subrange(n + 8, n + 16));
    assert(spec_u64_to_le_bytes(modified2) =~= w2.subrange(n + 8, n + 16));
}

} // verus!
