//! Plain data shapes of the remote API's responses, as the rest of the
//! library consumes them. Wire-format decoding happens outside the library;
//! maps from the wire are handed over as key/value pair lists, keeping the
//! order they were decoded in.

use vstd::prelude::*;

verus! {

/// Localized tag names, as (language, name) pairs.
pub struct TagDataAttributes {
    pub name: Vec<(String, String)>,
}

pub struct TagData {
    pub attributes: TagDataAttributes,
}

pub struct MangaDataAttributes {
    /// Localized titles, as (language, title) pairs.
    pub title: Vec<(String, String)>,
    /// Localized alternative titles, each a list of (language, title) pairs.
    pub alt_titles: Vec<Vec<(String, String)>>,
    /// Languages the work is available in; absent entries are skipped.
    pub available_languages: Vec<Option<String>>,
    /// Localized descriptions, as (language, description) pairs.
    pub description: Vec<(String, String)>,
    pub tags: Vec<TagData>,
}

pub struct MangaData {
    pub attributes: MangaDataAttributes,
}

pub struct MangaDataResponse {
    pub data: MangaData,
}

/// Only relationships describing an attribution group carry a name.
pub struct RawChapterRelationshipAttributes {
    pub name: Option<String>,
}

pub struct RawChapterRelationship {
    /// The relationship kind, `scanlation_group` for attribution groups.
    pub id: String,
    pub attributes: Option<RawChapterRelationshipAttributes>,
}

pub struct ChapterAttributes {
    pub volume: Option<String>,
    pub chapter: Option<String>,
    pub language: Option<String>,
}

pub struct ChapterData {
    pub id: String,
    pub attributes: ChapterAttributes,
    pub relationships: Vec<RawChapterRelationship>,
}

/// One page of the paginated chapter listing.
pub struct ChapterDataResponse {
    pub data: Vec<ChapterData>,
    pub limit: u64,
    pub offset: u64,
    pub total: u64,
}

/// The image batch of one chapter: the server-supplied hash segment and the
/// image filenames.
pub struct ChapterImageData {
    pub hash: String,
    pub data: Vec<String>,
}

pub struct ChapterImageResponse {
    pub base_url: String,
    pub chapter: ChapterImageData,
}

pub struct CoverArtAttributes {
    pub volume: Option<String>,
    pub file_name: String,
}

pub struct CoverArtData {
    pub attributes: CoverArtAttributes,
}

/// One page of the paginated cover listing.
pub struct CoverArtResponse {
    pub data: Vec<CoverArtData>,
    pub limit: u64,
    pub offset: u64,
    pub total: u64,
}

} // verus!
