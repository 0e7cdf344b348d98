//! The media proxy's state and route logic: registration of image,
//! video and torrent requests under their fingerprints, and the
//! serving side of the four routes. Network and disk stay outside;
//! callers pass the clock and any probed media type in, and perform
//! the upstream replay and the byte streaming with what comes back.

use vstd::prelude::*;

use crate::cache::{insert_seq, lookup_seq, other_key, Cache, CacheConfig};
use crate::error::Error;
use crate::fingerprint::{fingerprint_of, get_request_hash};
use crate::media_type::{detect_from_path, guessed_mime, path_extension, uri_path, MediaType};
use crate::request::{req_view, HttpRequest};
use crate::text::dec_of;
use crate::torrent::{
    build_m3u, get_torrent_source_hash, m3u_playlist, source_fingerprint, AddTorrentOptions,
    CachedRequest, CurrentVideo, TorrentBackend, TorrentSource,
};

verus! {

/// What kinds of failure registration can report.
#[derive(Debug)]
pub enum RegisterError {
    /// None of the detection tiers produced a media type.
    MimeUndetectable,
    /// An image registration resolved to a torrent file.
    ImageTorrentRejected,
    /// A video registration resolved to a torrent file; the caller
    /// should register it as a torrent instead.
    VideoIsTorrent,
    /// The detected type is neither a video nor a torrent.
    UnsupportedMediaType,
    /// An image registration was handed a magnet URI.
    MagnetNotSupportedForImages,
}

impl RegisterError {
    /// A human-readable message.
    pub fn message(&self) -> (r: String)
        ensures
            r@ == match *self {
                RegisterError::MimeUndetectable => "Could not detect mime type"@,
                RegisterError::ImageTorrentRejected => "Torrents are not supported for images"@,
                RegisterError::VideoIsTorrent => "Torrent file. Use register_torrent() instead."@,
                RegisterError::UnsupportedMediaType => "Unsupported media type"@,
                RegisterError::MagnetNotSupportedForImages
                    => "Magnet URIs are not supported for images"@,
            },
    {
        match self {
            RegisterError::MimeUndetectable => String::from_str("Could not detect mime type"),
            RegisterError::ImageTorrentRejected => String::from_str(
                "Torrents are not supported for images",
            ),
            RegisterError::VideoIsTorrent => String::from_str(
                "Torrent file. Use register_torrent() instead.",
            ),
            RegisterError::UnsupportedMediaType => String::from_str("Unsupported media type"),
            RegisterError::MagnetNotSupportedForImages => String::from_str(
                "Magnet URIs are not supported for images",
            ),
        }
    }
}

/// The media type registration acts on: the path extension's if the
/// extension table knows it, else whatever the network tiers probed.
pub open spec fn effective_mime(req: HttpRequest, probed: Option<MediaType>) -> Option<
    (Seq<char>, Seq<char>),
> {
    let from_path = match path_extension(uri_path(req.uri@)) {
        Some(e) => guessed_mime(e),
        None => None,
    };
    match from_path {
        Some(p) => Some(p),
        None => match probed {
            Some(m) => Some(m.view_pair()),
            None => None,
        },
    }
}

/// Whether a type pair is `video/*`.
pub open spec fn pair_is_video(p: (Seq<char>, Seq<char>)) -> bool {
    p.0 == "video"@
}

/// Whether a type pair is `application/x-bittorrent`.
pub open spec fn pair_is_torrent(p: (Seq<char>, Seq<char>)) -> bool {
    p.0 == "application"@ && p.1 == "x-bittorrent"@
}

/// The proxy's state: the listen address the emitted URLs carry, the
/// image cache, the shared video/torrent cache, and the single
/// current playback session.
pub struct Processor {
    pub addr: String,
    pub image_requests: Cache<HttpRequest>,
    pub video_requests: Cache<CachedRequest>,
    pub current_video: Option<CurrentVideo>,
}

/// The capacity a knob configures: an absent knob leaves the cache
/// unbounded, and a bound below one entry is raised to one, the
/// tightest bound the store holds.
pub open spec fn capacity_knob(c: Option<usize>) -> Option<usize> {
    match c {
        Some(n) => if n >= 1 {
            Some(n)
        } else {
            Some(1usize)
        },
        None => None,
    }
}

/// The local URL for a route and fingerprint:
/// `http://{addr}{route}{fingerprint}`.
pub open spec fn local_url(addr: Seq<char>, route: Seq<char>, h: u64) -> Seq<char> {
    "http://"@ + addr + route + dec_of(h as nat)
}

impl Processor {
    /// Both caches are well-formed.
    pub open spec fn wf(self) -> bool {
        self.image_requests.wf() && self.video_requests.wf()
    }

    /// A processor with the given bind address and cache knobs. Each
    /// cache honors exactly its TTL and capacity knobs; a capacity
    /// below one entry is raised to one.
    pub fn with_cache_config(addr: String, cache_config: CacheConfig) -> (r: Processor)
        ensures
            r.wf(),
            r.addr@ == addr@,
            r.image_requests.entries_view().len() == 0,
            r.video_requests.entries_view().len() == 0,
            r.current_video is None,
            r.image_requests.ttl_spec() == cache_config.image_ttl,
            r.video_requests.ttl_spec() == cache_config.video_ttl,
            r.image_requests.capacity_spec() == capacity_knob(cache_config.image_capacity),
            r.video_requests.capacity_spec() == capacity_knob(cache_config.video_capacity),
    {
        let mut image_requests: Cache<HttpRequest> = Cache::new();
        match cache_config.image_ttl {
            Some(t) => {
                image_requests = image_requests.with_ttl(t);
            },
            None => {},
        }
        match cache_config.image_capacity {
            Some(c) => {
                image_requests = image_requests.with_capacity(if c >= 1 { c } else { 1 });
            },
            None => {},
        }
        let mut video_requests: Cache<CachedRequest> = Cache::new();
        match cache_config.video_ttl {
            Some(t) => {
                video_requests = video_requests.with_ttl(t);
            },
            None => {},
        }
        match cache_config.video_capacity {
            Some(c) => {
                video_requests = video_requests.with_capacity(if c >= 1 { c } else { 1 });
            },
            None => {},
        }
        Processor { addr, image_requests, video_requests, current_video: None }
    }

    /// A processor with default cache knobs: no TTL, no capacity.
    pub fn new(addr: String) -> (r: Processor)
        ensures
            r.wf(),
            r.addr@ == addr@,
            r.image_requests.entries_view().len() == 0,
            r.video_requests.entries_view().len() == 0,
            r.current_video is None,
            r.image_requests.ttl_spec() is None,
            r.video_requests.ttl_spec() is None,
            r.image_requests.capacity_spec() is None,
            r.video_requests.capacity_spec() is None,
    {
        Processor::with_cache_config(addr, CacheConfig::default())
    }

    /// Register an image request. A request without custom headers
    /// needs no proxying: its own URI comes back and no cache
    /// changes. Otherwise the detected media type must not be a
    /// torrent, the record is cached under its fingerprint, and the
    /// local image URL comes back.
    pub fn register_image_request(
        &mut self,
        request: HttpRequest,
        probed: Option<MediaType>,
        now: u64,
    ) -> (r: Result<String, RegisterError>)
        requires
            old(self).wf(),
        ensures
            final(self).wf(),
            final(self).addr@ == old(self).addr@,
            final(self).video_requests == old(self).video_requests,
            final(self).current_video == old(self).current_video,
            final(self).image_requests.ttl_spec() == old(self).image_requests.ttl_spec(),
            final(self).image_requests.capacity_spec() == old(self).image_requests.capacity_spec(),
            request.has_no_headers() ==> (r matches Ok(u) && u@ == request.uri@ && final(self).image_requests == old(self).image_requests),
            !request.has_no_headers() ==> match effective_mime(request, probed) {
                None => r matches Err(e) && e is MimeUndetectable && final(self).image_requests
                    == old(self).image_requests,
                Some(p) => {
                    if pair_is_torrent(p) {
                        r matches Err(e) && e is ImageTorrentRejected && final(self).image_requests
                            == old(self).image_requests
                    } else {
                        &&& r matches Ok(u) && u@ == local_url(
                            old(self).addr@,
                            "/image/"@,
                            fingerprint_of(request),
                        )
                        &&& final(self).image_requests.entries_view() == insert_seq(
                            old(self).image_requests.entries_view(),
                            fingerprint_of(request),
                            request,
                            now,
                            old(self).image_requests.ttl_spec(),
                            old(self).image_requests.capacity_spec(),
                        )
                    }
                },
            },
    {
        if request.headers.len() == 0 {
            let uri = request.uri.clone();
            return Ok(uri);
        }
        let mime = match detect_from_path(&request) {
            Some(m) => Some(m),
            None => probed,
        };
        match mime {
            None => Err(RegisterError::MimeUndetectable),
            Some(m) => {
                if m.is_torrent() {
                    Err(RegisterError::ImageTorrentRejected)
                } else {
                    let request_hash = get_request_hash(&request);
                    let mut url = String::from_str("http://");
                    url.append(self.addr.as_str());
                    url.append("/image/");
                    url.append(crate::text::u64_to_dec(request_hash).as_str());
                    proof {
                        assert(url@ =~= local_url(
                            self.addr@,
                            "/image/"@,
                            fingerprint_of(request),
                        ));
                    }
                    self.image_requests.insert(request_hash, request, now);
                    Ok(url)
                }
            },
        }
    }

    /// Register a guest's media resource as an image: a magnet URI
    /// cannot be an image, an HTTP record registers as an image
    /// request.
    pub fn register_image_resource(
        &mut self,
        resource: crate::types::MediaResource,
        probed: Option<MediaType>,
        now: u64,
    ) -> (r: Result<String, RegisterError>)
        requires
            old(self).wf(),
        ensures
            final(self).wf(),
            final(self).addr@ == old(self).addr@,
            final(self).video_requests == old(self).video_requests,
            final(self).current_video == old(self).current_video,
            final(self).image_requests.ttl_spec() == old(self).image_requests.ttl_spec(),
            final(self).image_requests.capacity_spec() == old(self).image_requests.capacity_spec(),
            match resource {
                crate::types::MediaResource::MagnetUri(_) => r matches Err(e) && e
                    is MagnetNotSupportedForImages && final(self).image_requests == old(self).image_requests,
                crate::types::MediaResource::HttpRequest(req) => {
                    if req.has_no_headers() {
                        r matches Ok(u) && u@ == req.uri@ && final(self).image_requests == old(self).image_requests
                    } else {
                        match effective_mime(*req, probed) {
                            None => r matches Err(e) && e is MimeUndetectable && final(self).image_requests
                                == old(self).image_requests,
                            Some(p) => {
                                if pair_is_torrent(p) {
                                    r matches Err(e) && e is ImageTorrentRejected && final(self).image_requests
                                        == old(self).image_requests
                                } else {
                                    &&& r matches Ok(u) && u@ == local_url(
                                        old(self).addr@,
                                        "/image/"@,
                                        fingerprint_of(*req),
                                    )
                                    &&& final(self).image_requests.entries_view() == insert_seq(
                                        old(self).image_requests.entries_view(),
                                        fingerprint_of(*req),
                                        *req,
                                        now,
                                        old(self).image_requests.ttl_spec(),
                                        old(self).image_requests.capacity_spec(),
                                    )
                                }
                            },
                        }
                    }
                },
            },
    {
        match resource {
            crate::types::MediaResource::MagnetUri(_) => Err(
                RegisterError::MagnetNotSupportedForImages,
            ),
            crate::types::MediaResource::HttpRequest(request) => self.register_image_request(
                *request,
                probed,
                now,
            ),
        }
    }

    /// Register a video request. A request without custom headers
    /// comes back unchanged. A `video/*` record is cached under its
    /// fingerprint and the local video URL comes back; a torrent
    /// file is refused towards `register_torrent`; anything else is
    /// unsupported.
    pub fn register_video_request(
        &mut self,
        request: HttpRequest,
        probed: Option<MediaType>,
        now: u64,
    ) -> (r: Result<String, RegisterError>)
        requires
            old(self).wf(),
        ensures
            final(self).wf(),
            final(self).addr@ == old(self).addr@,
            final(self).image_requests == old(self).image_requests,
            final(self).current_video == old(self).current_video,
            final(self).video_requests.ttl_spec() == old(self).video_requests.ttl_spec(),
            final(self).video_requests.capacity_spec() == old(self).video_requests.capacity_spec(),
            request.has_no_headers() ==> (r matches Ok(u) && u@ == request.uri@ && final(self).video_requests == old(self).video_requests),
            !request.has_no_headers() ==> match effective_mime(request, probed) {
                None => r matches Err(e) && e is MimeUndetectable && final(self).video_requests
                    == old(self).video_requests,
                Some(p) => {
                    if pair_is_video(p) {
                        &&& r matches Ok(u) && u@ == local_url(
                            old(self).addr@,
                            "/video/"@,
                            fingerprint_of(request),
                        )
                        &&& final(self).video_requests.entries_view() == insert_seq(
                            old(self).video_requests.entries_view(),
                            fingerprint_of(request),
                            CachedRequest::Http(Box::new(request)),
                            now,
                            old(self).video_requests.ttl_spec(),
                            old(self).video_requests.capacity_spec(),
                        )
                    } else if pair_is_torrent(p) {
                        r matches Err(e) && e is VideoIsTorrent && final(self).video_requests
                            == old(self).video_requests
                    } else {
                        r matches Err(e) && e is UnsupportedMediaType && final(self).video_requests == old(self).video_requests
                    }
                },
            },
    {
        if request.headers.len() == 0 {
            let uri = request.uri.clone();
            return Ok(uri);
        }
        let mime = match detect_from_path(&request) {
            Some(m) => Some(m),
            None => probed,
        };
        match mime {
            None => Err(RegisterError::MimeUndetectable),
            Some(m) => {
                if m.is_video() {
                    let request_hash = get_request_hash(&request);
                    let mut url = String::from_str("http://");
                    url.append(self.addr.as_str());
                    url.append("/video/");
                    url.append(crate::text::u64_to_dec(request_hash).as_str());
                    proof {
                        assert(url@ =~= local_url(
                            self.addr@,
                            "/video/"@,
                            fingerprint_of(request),
                        ));
                    }
                    self.video_requests.insert(
                        request_hash,
                        CachedRequest::Http(Box::new(request)),
                        now,
                    );
                    Ok(url)
                } else if m.is_torrent() {
                    Err(RegisterError::VideoIsTorrent)
                } else {
                    Err(RegisterError::UnsupportedMediaType)
                }
            },
        }
    }

    /// Register a torrent source with the file indices to play. The
    /// record is cached in the video cache under the source's
    /// fingerprint and the local torrent URL comes back.
    pub fn register_torrent(
        &mut self,
        source: TorrentSource,
        file_indices: Vec<usize>,
        now: u64,
    ) -> (r: String)
        requires
            old(self).wf(),
        ensures
            final(self).wf(),
            final(self).addr@ == old(self).addr@,
            final(self).image_requests == old(self).image_requests,
            final(self).current_video == old(self).current_video,
            final(self).video_requests.ttl_spec() == old(self).video_requests.ttl_spec(),
            final(self).video_requests.capacity_spec() == old(self).video_requests.capacity_spec(),
            r@ == local_url(old(self).addr@, "/torrent/"@, source_fingerprint(source)),
            final(self).video_requests.entries_view() == insert_seq(
                old(self).video_requests.entries_view(),
                source_fingerprint(source),
                CachedRequest::Torrent { source, file_indices },
                now,
                old(self).video_requests.ttl_spec(),
                old(self).video_requests.capacity_spec(),
            ),
    {
        let request_hash = get_torrent_source_hash(&source);
        let mut url = String::from_str("http://");
        url.append(self.addr.as_str());
        url.append("/torrent/");
        url.append(crate::text::u64_to_dec(request_hash).as_str());
        proof {
            assert(url@ =~= local_url(self.addr@, "/torrent/"@, source_fingerprint(source)));
        }
        self.video_requests.insert(
            request_hash,
            CachedRequest::Torrent { source, file_indices },
            now,
        );
        url
    }

    /// Serve `/image/{h}`: the cached record to replay upstream,
    /// left in place, so the same fingerprint serves again.
    pub fn handle_image_request(&self, request_hash: u64, now: u64) -> (r: Result<
        HttpRequest,
        Error,
    >)
        ensures
            ({
                let l = lookup_seq(self.image_requests.entries_view(), request_hash);
                match r {
                    Ok(req) => l is Some && !crate::cache::expired_at(
                        (l->0).1,
                        now,
                        self.image_requests.ttl_spec(),
                    ) && req_view(req) == req_view((l->0).0),
                    Err(e) => e is NotFound && !(l is Some && !crate::cache::expired_at(
                        (l->0).1,
                        now,
                        self.image_requests.ttl_spec(),
                    )),
                }
            }),
    {
        match self.image_requests.get(request_hash, now) {
            Some(req) => Ok(req.duplicate()),
            None => Err(Error::NotFound),
        }
    }

    /// Serve `/video/{h}`: the cached record to replay upstream,
    /// consumed on the hit, so the same fingerprint afterwards finds
    /// nothing.
    pub fn handle_video_request(&mut self, request_hash: u64, now: u64) -> (r: Result<
        HttpRequest,
        Error,
    >)
        requires
            old(self).wf(),
        ensures
            final(self).wf(),
            final(self).addr@ == old(self).addr@,
            final(self).image_requests == old(self).image_requests,
            final(self).current_video == old(self).current_video,
            final(self).video_requests.entries_view() == old(self).video_requests.entries_view().filter(other_key(request_hash)),
            final(self).video_requests.ttl_spec() == old(self).video_requests.ttl_spec(),
            final(self).video_requests.capacity_spec() == old(self).video_requests.capacity_spec(),
            lookup_seq(final(self).video_requests.entries_view(), request_hash) is None,
            ({
                let l = lookup_seq(old(self).video_requests.entries_view(), request_hash);
                let live = l is Some && !crate::cache::expired_at(
                    (l->0).1,
                    now,
                    old(self).video_requests.ttl_spec(),
                );
                match r {
                    Ok(req) => live && ((l->0).0 matches CachedRequest::Http(stored) && req_view(
                        req,
                    ) == req_view(*stored)),
                    Err(e) => match e {
                        Error::NotFound => !live,
                        Error::InvalidRequestType => live && (l->0).0 is Torrent,
                        _ => false,
                    },
                }
            }),
    {
        match self.video_requests.remove(request_hash, now) {
            None => Err(Error::NotFound),
            Some(entry) => match entry {
                CachedRequest::Http(req) => Ok(req.duplicate()),
                CachedRequest::Torrent { .. } => Err(Error::InvalidRequestType),
            },
        }
    }

    /// Serve `/torrent/{h}`: consume the cached record, which must be
    /// the torrent variant; then, with a backend present, cancel any
    /// previous torrent session, start the new one, record it as
    /// current, and answer with the M3U playlist. At most one session
    /// is ever current; the previous session's id goes to the
    /// backend's cancel before the new add, and a cancel failure is
    /// swallowed.
    pub fn handle_torrent_request<B: TorrentBackend>(
        &mut self,
        backend: &mut Option<B>,
        request_hash: u64,
        now: u64,
    ) -> (r: Result<String, Error>)
        requires
            old(self).wf(),
        ensures
            final(self).wf(),
            final(self).addr@ == old(self).addr@,
            final(self).image_requests == old(self).image_requests,
            ({
                let l = lookup_seq(old(self).video_requests.entries_view(), request_hash);
                let live = l is Some && !crate::cache::expired_at(
                    (l->0).1,
                    now,
                    old(self).video_requests.ttl_spec(),
                );
                match r {
                    Ok(m3u) => {
                        &&& live
                        &&& (*old(backend)) is Some
                        &&& (l->0).0 is Torrent
                        &&& final(self).current_video matches Some(cv) && cv matches
                            CurrentVideo::Torrent { torrent_id } && (exists|files: Seq<
                            crate::torrent::TorrentFile,
                        >| m3u@ == m3u_playlist(old(self).addr@, torrent_id@, files))
                    },
                    Err(e) => match e {
                        Error::NotFound => !live && final(self).current_video == old(self).current_video,
                        Error::InvalidRequestType => live && (l->0).0 is Http && final(self).current_video == old(self).current_video,
                        Error::TorrentSupportDisabled => live && (l->0).0 is Torrent && (*old(
                            backend,
                        )) is None && final(self).current_video == old(self).current_video,
                        Error::TorrentBackend(_) => live && (*old(backend)) is Some && (l->0).0
                            is Torrent && final(self).current_video is None,
                        _ => false,
                    },
                }
            }),
            final(self).video_requests.entries_view() == old(self).video_requests.entries_view().filter(other_key(request_hash)),
            final(self).video_requests.ttl_spec() == old(self).video_requests.ttl_spec(),
            final(self).video_requests.capacity_spec() == old(self).video_requests.capacity_spec(),
    {
        let entry = match self.video_requests.remove(request_hash, now) {
            None => {
                return Err(Error::NotFound);
            },
            Some(e) => e,
        };
        let (source, file_indices) = match entry {
            CachedRequest::Http(_) => {
                return Err(Error::InvalidRequestType);
            },
            CachedRequest::Torrent { source, file_indices } => (source, file_indices),
        };
        let b = match backend {
            None => {
                return Err(Error::TorrentSupportDisabled);
            },
            Some(b) => b,
        };
        // take the previous session and cancel it, best-effort
        let previous = self.current_video.take();
        match previous {
            Some(CurrentVideo::Torrent { torrent_id }) => {
                let _cancelled = b.cancel_torrent(torrent_id.as_str());
            },
            _ => {},
        }
        let added = match b.add_torrent(source, Some(AddTorrentOptions { file_indices })) {
            Ok(t) => t,
            Err(e) => {
                return Err(Error::TorrentBackend(e));
            },
        };
        let m3u = build_m3u(self.addr.as_str(), added.id.as_str(), &added.files);
        self.current_video = Some(CurrentVideo::Torrent { torrent_id: added.id });
        proof {
            assert(m3u@ == m3u_playlist(self.addr@, self.current_video->0->torrent_id@, added.files@));
        }
        Ok(m3u)
    }
}

/// Video single-use: serving `/video/{h}` leaves a video cache in
/// which the same fingerprint finds nothing, so a second request for
/// it is refused as not found.
pub proof fn lemma_video_single_use<V>(entries: Seq<(u64, V, u64)>, h: u64)
    ensures
        lookup_seq(entries.filter(other_key::<V>(h)), h) is None,
{
    let filtered = entries.filter(other_key::<V>(h));
    assert forall|i: int| 0 <= i < filtered.len() implies (#[trigger] filtered[i]).0 != h by {
        entries.lemma_filter_pred(other_key::<V>(h), i);
    }
    crate::cache::lemma_lookup_absent(filtered, h);
}

} // verus!
