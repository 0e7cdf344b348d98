//! The gateway's data types: guest-side records as the extension
//! returns them (media references still opaque), and host-side
//! records after the facade has rewritten references into local
//! URLs.

use vstd::prelude::*;

use crate::request::HttpRequest;

verus! {

/// A guest's reference to remote content: an HTTP request record or
/// a magnet URI.
pub enum MediaResource {
    HttpRequest(Box<HttpRequest>),
    MagnetUri(String),
}

/// One page of results and whether more pages follow.
pub struct Page<T> {
    pub items: Vec<T>,
    pub has_next_page: bool,
}

/// One selectable filter value.
pub struct Filter {
    pub id: String,
    pub display_name: String,
}

/// A named group of filters.
pub struct FilterCategory {
    pub id: String,
    pub display_name: String,
    pub filters: Vec<Filter>,
}

/// A filter chosen for a search: the filter id and the selected
/// values.
pub struct SearchFilter {
    pub id: String,
    pub values: Vec<String>,
}

/// A series as the guest returns it: the poster is still a media
/// resource.
pub struct SeriesRecord {
    pub id: String,
    pub title: String,
    pub poster_resource: Option<MediaResource>,
    pub synopsis: Option<String>,
    pub kind: Option<String>,
}

/// An episode as the guest returns it.
pub struct EpisodeRecord {
    pub id: String,
    pub number: u16,
    pub title: Option<String>,
    pub thumbnail_resource: Option<MediaResource>,
    pub description: Option<String>,
}

/// A video as the guest returns it: a media resource, a
/// human-readable server label, and a (width, height) resolution.
pub struct VideoRecord {
    pub media_resource: MediaResource,
    pub server: String,
    pub resolution: (u16, u16),
}

/// A series after rewriting: the poster, if any, is a local URL.
pub struct Series {
    pub id: String,
    pub title: String,
    pub poster_url: Option<String>,
    pub synopsis: Option<String>,
    pub kind: Option<String>,
}

/// An episode after rewriting.
pub struct Episode {
    pub id: String,
    pub number: u16,
    pub title: Option<String>,
    pub thumbnail_url: Option<String>,
    pub description: Option<String>,
}

/// A playable video after rewriting: a local URL.
pub struct Video {
    pub url: String,
    pub server: String,
    pub resolution: (u16, u16),
}

} // verus!
