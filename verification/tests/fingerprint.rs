use nero::fingerprint::get_request_hash;
use nero::request::{HopByHopHeadersExt, HttpRequest};
use nero::torrent::{get_torrent_source_hash, TorrentSource};

fn req(method: &str, uri: &str, headers: Vec<(&str, &str)>, body: Option<Vec<u8>>) -> HttpRequest {
    HttpRequest {
        method: method.to_string(),
        uri: uri.to_string(),
        headers: headers
            .into_iter()
            .map(|(k, v)| (k.to_string(), v.to_string()))
            .collect(),
        body,
    }
}

#[test]
fn fingerprint_ignores_header_order() {
    let a = req(
        "GET",
        "https://ex/p.jpg",
        vec![("referer", "https://ex/"), ("accept", "image/*"), ("x-a", "1")],
        None,
    );
    let b = req(
        "GET",
        "https://ex/p.jpg",
        vec![("x-a", "1"), ("referer", "https://ex/"), ("accept", "image/*")],
        None,
    );
    assert_eq!(get_request_hash(&a), get_request_hash(&b));
}

#[test]
fn fingerprint_ignores_header_name_case() {
    let a = req("GET", "https://ex/p.jpg", vec![("Referer", "https://ex/")], None);
    let b = req("GET", "https://ex/p.jpg", vec![("referer", "https://ex/")], None);
    assert_eq!(get_request_hash(&a), get_request_hash(&b));
}

#[test]
fn fingerprint_sensitive_to_method() {
    let a = req("GET", "https://ex/v.mp4", vec![("x", "1")], None);
    let b = req("POST", "https://ex/v.mp4", vec![("x", "1")], None);
    assert_ne!(get_request_hash(&a), get_request_hash(&b));
}

#[test]
fn fingerprint_sensitive_to_uri() {
    let a = req("GET", "https://ex/v1.mp4", vec![], None);
    let b = req("GET", "https://ex/v2.mp4", vec![], None);
    assert_ne!(get_request_hash(&a), get_request_hash(&b));
}

#[test]
fn fingerprint_sensitive_to_header_value() {
    let a = req("GET", "https://ex/v.mp4", vec![("x", "1")], None);
    let b = req("GET", "https://ex/v.mp4", vec![("x", "2")], None);
    assert_ne!(get_request_hash(&a), get_request_hash(&b));
}

#[test]
fn fingerprint_sensitive_to_header_name() {
    let a = req("GET", "https://ex/v.mp4", vec![("x", "1")], None);
    let b = req("GET", "https://ex/v.mp4", vec![("y", "1")], None);
    assert_ne!(get_request_hash(&a), get_request_hash(&b));
}

#[test]
fn fingerprint_sensitive_to_body() {
    let a = req("POST", "https://ex/q", vec![], Some(vec![1, 2, 3]));
    let b = req("POST", "https://ex/q", vec![], Some(vec![1, 2, 4]));
    let c = req("POST", "https://ex/q", vec![], None);
    assert_ne!(get_request_hash(&a), get_request_hash(&b));
    assert_ne!(get_request_hash(&a), get_request_hash(&c));
}

#[test]
fn torrent_source_hash_separates_domains() {
    let magnet = "magnet:?xt=urn:btih:abcdef";
    let h1 = get_torrent_source_hash(&TorrentSource::MagnetUri(magnet.to_string()));
    let h2 = get_torrent_source_hash(&TorrentSource::MagnetUri("magnet:?xt=urn:btih:other".to_string()));
    assert_ne!(h1, h2);
    let req_source = TorrentSource::Http(Box::new(req("GET", magnet, vec![], None)));
    assert_ne!(h1, get_torrent_source_hash(&req_source));
}

#[test]
fn hop_by_hop_headers_are_stripped() {
    let mut r = req(
        "GET",
        "https://ex/v.mp4",
        vec![
            ("connection", "x-session, , x-token"),
            ("keep-alive", "30"),
            ("proxy-authenticate", "b"),
            ("proxy-authorization", "c"),
            ("te", "trailers"),
            ("trailers", "d"),
            ("transfer-encoding", "chunked"),
            ("upgrade", "h2c"),
            ("x-session", "s"),
            ("X-Token", "t"),
            ("referer", "https://ex/"),
            ("accept", "*/*"),
        ],
        None,
    );
    r.remove_hop_by_hop_headers();
    let names: Vec<&str> = r.headers.iter().map(|h| h.0.as_str()).collect();
    assert_eq!(names, vec!["referer", "accept"]);
}

#[test]
fn connection_token_matching_is_case_insensitive() {
    let mut r = req(
        "GET",
        "https://ex/",
        vec![("Connection", "X-Secret"), ("x-secret", "v"), ("other", "w")],
        None,
    );
    r.remove_hop_by_hop_headers();
    let names: Vec<&str> = r.headers.iter().map(|h| h.0.as_str()).collect();
    assert_eq!(names, vec!["other"]);
}
