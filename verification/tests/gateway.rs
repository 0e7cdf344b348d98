use nero::error::Error;
use nero::processor::{Processor, RegisterError};
use nero::request::HttpRequest;
use nero::text::u64_to_dec;
use nero::torrent::{
    parse_range, should_retry_stream_error, stream_response_head, AddTorrentOptions, Torrent,
    TorrentBackend, TorrentFile, TorrentSource,
};

fn req(method: &str, uri: &str, headers: Vec<(&str, &str)>) -> HttpRequest {
    HttpRequest {
        method: method.to_string(),
        uri: uri.to_string(),
        headers: headers
            .into_iter()
            .map(|(k, v)| (k.to_string(), v.to_string()))
            .collect(),
        body: None,
    }
}

fn proxy() -> Processor {
    Processor::new("127.0.0.1:3000".to_string())
}

#[test]
fn image_passthrough_without_headers() {
    let mut p = proxy();
    let r = req("GET", "https://ex/p.jpg", vec![]);
    let url = p.register_image_request(r, None, 0).unwrap();
    assert_eq!(url, "https://ex/p.jpg");
    // nothing was cached: any fingerprint misses
    assert!(matches!(p.handle_image_request(0, 0), Err(Error::NotFound)));
}

#[test]
fn video_passthrough_without_headers() {
    let mut p = proxy();
    let r = req("GET", "https://ex/v.mp4", vec![]);
    let url = p.register_video_request(r, None, 0).unwrap();
    assert_eq!(url, "https://ex/v.mp4");
}

#[test]
fn image_via_proxy_is_idempotent() {
    let mut p = proxy();
    let r = req("GET", "https://ex/p.jpg", vec![("referer", "https://ex/")]);
    let hash = nero::fingerprint::get_request_hash(&r);
    let url = p.register_image_request(r, None, 0).unwrap();
    assert_eq!(url, format!("http://127.0.0.1:3000/image/{}", u64_to_dec(hash)));
    let first = p.handle_image_request(hash, 1).unwrap();
    assert_eq!(first.uri, "https://ex/p.jpg");
    let second = p.handle_image_request(hash, 2).unwrap();
    assert_eq!(second.uri, "https://ex/p.jpg");
}

#[test]
fn image_registration_rejects_torrents() {
    let mut p = proxy();
    let r = req("GET", "https://ex/file.torrent", vec![("referer", "https://ex/")]);
    let e = p.register_image_request(r, None, 0).unwrap_err();
    assert!(matches!(e, RegisterError::ImageTorrentRejected));
    assert_eq!(e.message(), "Torrents are not supported for images");
}

#[test]
fn video_single_use() {
    let mut p = proxy();
    let r = req("GET", "https://ex/v.mp4", vec![("referer", "https://ex/")]);
    let hash = nero::fingerprint::get_request_hash(&r);
    let url = p.register_video_request(r, None, 0).unwrap();
    assert_eq!(url, format!("http://127.0.0.1:3000/video/{}", u64_to_dec(hash)));
    assert!(p.handle_video_request(hash, 1).is_ok());
    assert!(matches!(p.handle_video_request(hash, 1), Err(Error::NotFound)));
}

#[test]
fn video_registration_redirects_torrents() {
    let mut p = proxy();
    let r = req("GET", "https://ex/file.torrent", vec![("referer", "https://ex/")]);
    let e = p.register_video_request(r, None, 0).unwrap_err();
    assert!(matches!(e, RegisterError::VideoIsTorrent));
    assert_eq!(e.message(), "Torrent file. Use register_torrent() instead.");
}

#[test]
fn video_registration_rejects_other_types() {
    let mut p = proxy();
    let r = req("GET", "https://ex/page.html", vec![("referer", "https://ex/")]);
    let e = p.register_video_request(r, None, 0).unwrap_err();
    assert!(matches!(e, RegisterError::UnsupportedMediaType));
}

#[test]
fn registration_without_any_mime_fails() {
    let mut p = proxy();
    let r = req("GET", "https://ex/stream", vec![("referer", "https://ex/")]);
    let e = p.register_image_request(r, None, 0).unwrap_err();
    assert!(matches!(e, RegisterError::MimeUndetectable));
    assert_eq!(e.message(), "Could not detect mime type");
}

struct MockBackend {
    next_id: u32,
    files: Vec<TorrentFile>,
    log: Vec<String>,
    fail_add: bool,
}

impl MockBackend {
    fn new(names: Vec<&str>) -> MockBackend {
        MockBackend {
            next_id: 1,
            files: names
                .iter()
                .enumerate()
                .map(|(i, n)| TorrentFile {
                    index: i,
                    name: n.to_string(),
                    path: n.to_string(),
                })
                .collect(),
            log: Vec::new(),
            fail_add: false,
        }
    }
}

impl TorrentBackend for MockBackend {
    fn list_files(&mut self, _source: &TorrentSource) -> Result<Vec<TorrentFile>, String> {
        Ok(self
            .files
            .iter()
            .map(|f| TorrentFile {
                index: f.index,
                name: f.name.clone(),
                path: f.path.clone(),
            })
            .collect())
    }

    fn add_torrent(
        &mut self,
        _source: TorrentSource,
        options: Option<AddTorrentOptions>,
    ) -> Result<Torrent, String> {
        if self.fail_add {
            return Err("mock add failure".to_string());
        }
        let id = self.next_id.to_string();
        self.next_id += 1;
        self.log.push(format!("add:{id}"));
        let indices = options.map(|o| o.file_indices).unwrap_or_default();
        let files = self
            .files
            .iter()
            .filter(|f| indices.is_empty() || indices.contains(&f.index))
            .map(|f| TorrentFile {
                index: f.index,
                name: f.name.clone(),
                path: f.path.clone(),
            })
            .collect();
        Ok(Torrent { id, name: None, files })
    }

    fn cancel_torrent(&mut self, torrent_id: &str) -> Result<(), String> {
        self.log.push(format!("cancel:{torrent_id}"));
        Ok(())
    }
}

#[test]
fn magnet_registration_yields_m3u_playlist() {
    let mut p = proxy();
    let source = TorrentSource::MagnetUri("magnet:?xt=urn:btih:abc".to_string());
    let hash = nero::torrent::get_torrent_source_hash(&source);
    let url = p.register_torrent(source, vec![3], 0);
    assert_eq!(url, format!("http://127.0.0.1:3000/torrent/{}", u64_to_dec(hash)));

    let mut backend = Some(MockBackend::new(vec!["a", "b", "c", "Episode 4.mkv"]));
    let m3u = p.handle_torrent_request(&mut backend, hash, 1).unwrap();
    assert_eq!(
        m3u,
        "#EXTM3U\n#EXTINF:-1,Episode 4.mkv\nhttp://127.0.0.1:3000/torrent/1/stream/3\n"
    );
    // the record was consumed
    assert!(matches!(
        p.handle_torrent_request(&mut backend, hash, 1),
        Err(Error::NotFound)
    ));
}

#[test]
fn torrent_route_requires_backend() {
    let mut p = proxy();
    let source = TorrentSource::MagnetUri("magnet:?xt=urn:btih:abc".to_string());
    let hash = nero::torrent::get_torrent_source_hash(&source);
    p.register_torrent(source, vec![0], 0);
    let mut backend: Option<MockBackend> = None;
    assert!(matches!(
        p.handle_torrent_request(&mut backend, hash, 1),
        Err(Error::TorrentSupportDisabled)
    ));
}

#[test]
fn torrent_route_checks_variant_before_backend() {
    // an Http entry is the wrong variant even when no backend is set
    let mut p = proxy();
    let r = req("GET", "https://ex/v.mp4", vec![("referer", "https://ex/")]);
    let hash = nero::fingerprint::get_request_hash(&r);
    p.register_video_request(r, None, 0).unwrap();
    let mut backend: Option<MockBackend> = None;
    assert!(matches!(
        p.handle_torrent_request(&mut backend, hash, 1),
        Err(Error::InvalidRequestType)
    ));
}

#[test]
fn capacity_knob_bounds_the_video_cache() {
    let mut p = Processor::with_cache_config(
        "127.0.0.1:3000".to_string(),
        nero::cache::CacheConfig {
            image_ttl: None,
            image_capacity: None,
            video_ttl: None,
            video_capacity: Some(1),
        },
    );
    let r1 = req("GET", "https://ex/a.mp4", vec![("referer", "https://ex/")]);
    let r2 = req("GET", "https://ex/b.mp4", vec![("referer", "https://ex/")]);
    let h1 = nero::fingerprint::get_request_hash(&r1);
    let h2 = nero::fingerprint::get_request_hash(&r2);
    p.register_video_request(r1, None, 0).unwrap();
    p.register_video_request(r2, None, 1).unwrap();
    // the older entry was evicted to honor the capacity
    assert!(matches!(p.handle_video_request(h1, 2), Err(Error::NotFound)));
    assert!(p.handle_video_request(h2, 2).is_ok());
}

#[test]
fn torrent_route_rejects_http_entries() {
    let mut p = proxy();
    let r = req("GET", "https://ex/v.mp4", vec![("referer", "https://ex/")]);
    let hash = nero::fingerprint::get_request_hash(&r);
    p.register_video_request(r, None, 0).unwrap();
    let mut backend = Some(MockBackend::new(vec!["a"]));
    assert!(matches!(
        p.handle_torrent_request(&mut backend, hash, 1),
        Err(Error::InvalidRequestType)
    ));
}

#[test]
fn switching_torrents_cancels_previous_before_new_add() {
    let mut p = proxy();
    let s1 = TorrentSource::MagnetUri("magnet:?xt=urn:btih:one".to_string());
    let s2 = TorrentSource::MagnetUri("magnet:?xt=urn:btih:two".to_string());
    let h1 = nero::torrent::get_torrent_source_hash(&s1);
    let h2 = nero::torrent::get_torrent_source_hash(&s2);
    p.register_torrent(s1, vec![0], 0);
    p.register_torrent(s2, vec![0], 0);
    let mut backend = Some(MockBackend::new(vec!["a"]));
    p.handle_torrent_request(&mut backend, h1, 1).unwrap();
    p.handle_torrent_request(&mut backend, h2, 2).unwrap();
    let log = &backend.as_ref().unwrap().log;
    assert_eq!(log, &vec![
        "add:1".to_string(),
        "cancel:1".to_string(),
        "add:2".to_string()
    ]);
}

#[test]
fn failed_add_leaves_no_current_session() {
    let mut p = proxy();
    let s1 = TorrentSource::MagnetUri("magnet:?xt=urn:btih:one".to_string());
    let h1 = nero::torrent::get_torrent_source_hash(&s1);
    p.register_torrent(s1, vec![0], 0);
    let mut backend = Some(MockBackend::new(vec!["a"]));
    backend.as_mut().unwrap().fail_add = true;
    let e = p.handle_torrent_request(&mut backend, h1, 1).unwrap_err();
    assert!(matches!(e, Error::TorrentBackend(_)));
    assert_eq!(e.status_code(), 500);
    assert!(p.current_video.is_none());
}

#[test]
fn magnet_uri_cannot_register_as_image() {
    let mut p = proxy();
    let resource =
        nero::types::MediaResource::MagnetUri("magnet:?xt=urn:btih:abc".to_string());
    let e = p.register_image_resource(resource, None, 0).unwrap_err();
    assert!(matches!(e, RegisterError::MagnetNotSupportedForImages));
    assert_eq!(e.message(), "Magnet URIs are not supported for images");
}

#[test]
fn http_resource_registers_as_image() {
    let mut p = proxy();
    let r = req("GET", "https://ex/p.jpg", vec![("referer", "https://ex/")]);
    let hash = nero::fingerprint::get_request_hash(&r);
    let resource = nero::types::MediaResource::HttpRequest(Box::new(r));
    let url = p.register_image_resource(resource, None, 0).unwrap();
    assert_eq!(url, format!("http://127.0.0.1:3000/image/{}", u64_to_dec(hash)));
}

#[test]
fn video_entries_expire_at_route_level() {
    let mut p = Processor::with_cache_config(
        "127.0.0.1:3000".to_string(),
        nero::cache::CacheConfig {
            image_ttl: None,
            image_capacity: None,
            video_ttl: Some(100),
            video_capacity: None,
        },
    );
    let r = req("GET", "https://ex/v.mp4", vec![("referer", "https://ex/")]);
    let hash = nero::fingerprint::get_request_hash(&r);
    p.register_video_request(r, None, 1000).unwrap();
    assert!(matches!(p.handle_video_request(hash, 1100), Err(Error::NotFound)));
}

#[test]
fn error_status_codes() {
    assert_eq!(Error::NotFound.status_code(), 404);
    assert_eq!(Error::UpstreamHttp("x".to_string()).status_code(), 502);
    assert_eq!(Error::RemoteServer(503).status_code(), 502);
    assert_eq!(Error::TorrentSupportDisabled.status_code(), 400);
    assert_eq!(Error::TorrentBackend("x".to_string()).status_code(), 500);
    assert_eq!(Error::InvalidRequestType.status_code(), 400);
    assert_eq!(Error::NotFound.message(), "Request not found");
    assert_eq!(
        Error::RemoteServer(503).message(),
        "Remote server returned status 503"
    );
}

#[test]
fn range_parsing() {
    assert_eq!(parse_range("bytes=0-499"), Some((0, Some(500))));
    assert_eq!(parse_range("bytes=500-"), Some((500, None)));
    assert_eq!(parse_range("bytes=abc-10"), None);
    assert_eq!(parse_range("octets=0-1"), None);
    assert_eq!(parse_range("bytes=10"), None);
}

#[test]
fn range_head_is_exact() {
    let h = stream_response_head(1000, Some("bytes=0-499"));
    assert_eq!(h.status, 206);
    assert_eq!(h.content_length, 500);
    assert_eq!(h.content_range.as_deref(), Some("bytes 0-499/1000"));

    let h = stream_response_head(1000, Some("bytes=200-"));
    assert_eq!(h.status, 206);
    assert_eq!(h.content_length, 800);
    assert_eq!(h.content_range.as_deref(), Some("bytes 200-999/1000"));

    let h = stream_response_head(1000, None);
    assert_eq!(h.status, 200);
    assert_eq!(h.content_length, 1000);
    assert!(h.content_range.is_none());

    // an unsatisfiable range falls back to the whole file
    let h = stream_response_head(100, Some("bytes=200-300"));
    assert_eq!(h.status, 200);
    assert_eq!(h.content_length, 100);
}

#[test]
fn single_byte_range_is_exact() {
    let h = stream_response_head(10, Some("bytes=0-0"));
    assert_eq!(h.status, 206);
    assert_eq!(h.content_length, 1);
    assert_eq!(h.content_range.as_deref(), Some("bytes 0-0/10"));
}

#[test]
fn stream_retry_predicate_matches_not_ready_errors() {
    assert!(should_retry_stream_error("torrent is initializing"));
    assert!(should_retry_stream_error("waiting for metadata"));
    assert!(!should_retry_stream_error("file index out of range"));
}
