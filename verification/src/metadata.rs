//! Tag metadata extracted from an audio file, and the raw cover art that may
//! come with it.

use vstd::prelude::*;

verus! {

/// Decoded cover art: raw RGBA bytes and the image's dimensions.
#[derive(Clone, Debug)]
pub struct Thumbnail {
    pub image: Vec<u8>,
    pub width: u32,
    pub height: u32,
}

/// Tag metadata of one audio file. Extraction failures never surface here:
/// a file whose tags cannot be read gets placeholder metadata instead.
#[derive(Clone, Debug)]
pub struct Metadata {
    pub title: String,
    pub artists: Vec<String>,
    pub album: String,
    pub genre: String,
    pub duration: u64,
    pub writer: String,
    pub producer: String,
    pub publisher: String,
    pub label: String,
    pub thumbnail: Option<Thumbnail>,
}

impl Metadata {
    /// Field-wise equality over views, ignoring the thumbnail.
    pub open spec fn same_tags(&self, other: &Metadata) -> bool {
        &&& self.title@ == other.title@
        &&& self.artists@.map_values(|s: String| s@) == other.artists@.map_values(|s: String| s@)
        &&& self.album@ == other.album@
        &&& self.genre@ == other.genre@
        &&& self.duration == other.duration
        &&& self.writer@ == other.writer@
        &&& self.producer@ == other.producer@
        &&& self.publisher@ == other.publisher@
        &&& self.label@ == other.label@
    }
}

} // verus!
