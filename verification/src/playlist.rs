//! Playlists: named, ordered collections of track identities with a
//! provenance tag.

use vstd::prelude::*;

use crate::hex::{hex_of, spec_hex_of};
use crate::track::TrackId;

verus! {

/// A process-unique playlist identity, drawn at random when the playlist is
/// created.
#[derive(Clone, Copy, PartialEq, Eq, Structural, Debug, Hash)]
pub struct PlaylistId(pub u128);

/// Where a playlist came from.
#[derive(Clone, Debug)]
pub enum PlaylistSource {
    User,
    Folder(String),
    Generated,
}

/// A playlist: its identity, a display name, its provenance, and the track
/// identities in playlist order.
#[derive(Clone, Debug)]
pub struct Playlist {
    pub id: PlaylistId,
    pub name: String,
    pub source: PlaylistSource,
    pub tracks: Vec<TrackId>,
}

impl PlaylistSource {
    /// Field-wise equality over views.
    pub open spec fn same_as(&self, other: &PlaylistSource) -> bool {
        match (self, other) {
            (PlaylistSource::User, PlaylistSource::User) => true,
            (PlaylistSource::Folder(a), PlaylistSource::Folder(b)) => a@ == b@,
            (PlaylistSource::Generated, PlaylistSource::Generated) => true,
            _ => false,
        }
    }
}

impl Playlist {
    /// Field-wise equality over views.
    pub open spec fn same_as(&self, other: &Playlist) -> bool {
        &&& self.id == other.id
        &&& self.name@ == other.name@
        &&& self.source.same_as(&other.source)
        &&& self.tracks@.map_values(|t: TrackId| t.0@) == other.tracks@.map_values(
            |t: TrackId| t.0@,
        )
    }
}

/// Relies on uuid::Uuid::new_v4: a freshly drawn random identifier. Nothing
/// is assumed of the value; the only property this crate leans on,
/// process-uniqueness, is statistical and is not claimed here.
#[verifier::external_body]
pub fn new_playlist_id() -> PlaylistId {
    PlaylistId(uuid::Uuid::new_v4().as_u128())
}

/// The text form a playlist identity is filed under in the cache: the hex of
/// its sixteen little-endian bytes.
pub open spec fn spec_playlist_id_text(id: PlaylistId) -> Seq<char> {
    spec_hex_of(vstd::bytes::spec_u128_to_le_bytes(id.0))
}

impl PlaylistId {
    /// The text form of this identity.
    pub fn text(&self) -> (r: String)
        ensures
            r@ == spec_playlist_id_text(*self),
    {
        proof {
            vstd::bytes::lemma_auto_spec_u128_to_from_le_bytes();
        }
        let bytes = vstd::bytes::u128_to_le_bytes(self.0);
        hex_of(&bytes)
    }
}

/// Two distinct identities never share a text form.
pub proof fn lemma_playlist_id_text_injective(a: PlaylistId, b: PlaylistId)
    requires
        spec_playlist_id_text(a) == spec_playlist_id_text(b),
    ensures
        a == b,
{
    vstd::bytes::lemma_auto_spec_u128_to_from_le_bytes();
    crate::hex::lemma_hex_round_trip(vstd::bytes::spec_u128_to_le_bytes(a.0));
    crate::hex::lemma_hex_round_trip(vstd::bytes::spec_u128_to_le_bytes(b.0));
}


/// Parse an identity back from its text form. Parsing fails exactly on text
/// that is no hex form of sixteen bytes.
pub fn playlist_id_from_text(text: &str) -> (r: Option<PlaylistId>)
    ensures
        r matches Some(id) ==> spec_playlist_id_text(id) == text@,
        r is None ==> crate::hex::spec_hex_parse(text@) is None || crate::hex::spec_hex_parse(
            text@,
        )->Some_0.len() != 16,
{
    proof {
        vstd::bytes::lemma_auto_spec_u128_to_from_le_bytes();
    }
    let bytes = match crate::hex::hex_parse(text) {
        Some(b) => b,
        None => {
            return None;
        },
    };
    if bytes.len() != 16 {
        return None;
    }
    let v = vstd::bytes::u128_from_le_bytes(bytes.as_slice());
    let id = PlaylistId(v);
    proof {
        crate::hex::lemma_hex_round_trip(vstd::bytes::spec_u128_to_le_bytes(v));
        lemma_hex_parse_inverts(text@, bytes@);
    }
    Some(id)
}

/// What the hex parser accepts is exactly what hex writing produces.
proof fn lemma_hex_parse_inverts(text: Seq<char>, bytes: Seq<u8>)
    requires
        crate::hex::spec_hex_parse(text) == Some(bytes),
    ensures
        crate::hex::spec_hex_of(bytes) == text,
    decreases text.len(),
{
    if text.len() == 0 {
        assert(bytes =~= Seq::<u8>::empty());
        assert(crate::hex::spec_hex_of(bytes) =~= Seq::<char>::empty());
        assert(text =~= Seq::<char>::empty());
    } else {
        let hi = crate::hex::spec_hex_value(text[0]);
        let lo = crate::hex::spec_hex_value(text[1]);
        let rest_bytes = crate::hex::spec_hex_parse(text.drop_first().drop_first())->Some_0;
        lemma_hex_parse_inverts(text.drop_first().drop_first(), rest_bytes);
        assert(bytes == seq![(hi * 16 + lo) as u8] + rest_bytes);
        assert(bytes[0] == (hi * 16 + lo) as u8);
        assert(bytes.drop_first() =~= rest_bytes);
        lemma_hex_value_digit(text[0]);
        lemma_hex_value_digit(text[1]);
        assert(((hi * 16 + lo) as u8) / 16 == hi);
        assert(((hi * 16 + lo) as u8) % 16 == lo);
        assert(crate::hex::spec_hex_of(bytes) =~= seq![text[0], text[1]] + crate::hex::spec_hex_of(
            bytes.drop_first(),
        ));
        assert(seq![text[0], text[1]] + text.drop_first().drop_first() =~= text);
    }
}

/// A character the parser valued below 16 is the digit written for that
/// value.
proof fn lemma_hex_value_digit(c: char)
    requires
        crate::hex::spec_hex_value(c) < 16,
    ensures
        crate::hex::spec_hex_digit(crate::hex::spec_hex_value(c)) == c,
{
}

} // verus!
