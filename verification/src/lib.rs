//! A local media-discovery and streaming gateway library.
//!
//! The library models HTTP request records, fingerprints them
//! canonically, caches them with TTL and capacity bounds, detects
//! media types, resolves episode files inside multi-file torrents,
//! and drives the proxy routes that turn remote media references
//! into local playback URLs.

pub mod cache;
pub mod error;
pub mod extension;
pub mod fingerprint;
pub mod media_type;
pub mod processor;
pub mod request;
pub mod resolver;
pub mod text;
pub mod torrent;
pub mod types;
pub mod version;
