//! The proxy's error kinds and their mapping to HTTP status codes.

use vstd::prelude::*;

use crate::text::{dec_of, u64_to_dec};

verus! {

/// What can go wrong serving a proxy route.
#[derive(Debug)]
pub enum Error {
    /// The fingerprint is in no cache.
    NotFound,
    /// The outbound request to the upstream server failed.
    UpstreamHttp(String),
    /// The upstream server answered with a non-success status.
    RemoteServer(u16),
    /// A torrent route was hit with no torrent backend set.
    TorrentSupportDisabled,
    /// The torrent backend reported a failure.
    TorrentBackend(String),
    /// The cache entry's variant does not fit the route.
    InvalidRequestType,
}

impl Error {
    /// The HTTP status each kind maps to.
    pub fn status_code(&self) -> (r: u16)
        ensures
            r == match *self {
                Error::NotFound => 404u16,
                Error::UpstreamHttp(_) => 502u16,
                Error::RemoteServer(_) => 502u16,
                Error::TorrentSupportDisabled => 400u16,
                Error::TorrentBackend(_) => 500u16,
                Error::InvalidRequestType => 400u16,
            },
    {
        match self {
            Error::NotFound => 404,
            Error::UpstreamHttp(_) => 502,
            Error::RemoteServer(_) => 502,
            Error::TorrentSupportDisabled => 400,
            Error::TorrentBackend(_) => 500,
            Error::InvalidRequestType => 400,
        }
    }

    /// A human-readable message, as the response body carries it.
    pub fn message(&self) -> (r: String)
        ensures
            r@ == match *self {
                Error::NotFound => "Request not found"@,
                Error::UpstreamHttp(e) => "Upstream HTTP error: "@ + e@,
                Error::RemoteServer(code) => "Remote server returned status "@ + dec_of(
                    code as nat,
                ),
                Error::TorrentSupportDisabled => "Torrent support is disabled"@,
                Error::TorrentBackend(e) => "Torrent error: "@ + e@,
                Error::InvalidRequestType => "Invalid request type"@,
            },
    {
        match self {
            Error::NotFound => String::from_str("Request not found"),
            Error::UpstreamHttp(e) => {
                let mut m = String::from_str("Upstream HTTP error: ");
                m.append(e.as_str());
                m
            },
            Error::RemoteServer(code) => {
                let mut m = String::from_str("Remote server returned status ");
                m.append(u64_to_dec(*code as u64).as_str());
                m
            },
            Error::TorrentSupportDisabled => String::from_str("Torrent support is disabled"),
            Error::TorrentBackend(e) => {
                let mut m = String::from_str("Torrent error: ");
                m.append(e.as_str());
                m
            },
            Error::InvalidRequestType => String::from_str("Invalid request type"),
        }
    }
}

} // verus!
