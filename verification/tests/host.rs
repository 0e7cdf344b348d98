use nero::extension::{
    find_extension_version, OutMethod, OutScheme, OutgoingRequest, PackageDecl,
};
use nero::media_type::{
    detect_from_path, parse_mime, sniff_media_type, uri_path_extension,
};
use nero::request::HttpRequest;
use nero::version::{select_binding, ContractVersion, SemVer};

fn ver(major: u64, minor: u64, patch: u64, pre: Vec<&str>) -> SemVer {
    SemVer {
        major,
        minor,
        patch,
        pre: pre.into_iter().map(|s| s.to_string()).collect(),
    }
}

#[test]
fn versions_below_the_minimum_are_refused() {
    assert!(select_binding(&ver(0, 0, 9, vec![])).is_none());
    assert!(select_binding(&ver(0, 1, 0, vec!["alpha"])).is_none());
}

#[test]
fn versions_at_or_above_the_minimum_bind() {
    assert!(matches!(
        select_binding(&ver(0, 1, 0, vec!["draft"])),
        Some(ContractVersion::V0_1_0Draft)
    ));
    // the release outranks its pre-releases
    assert!(select_binding(&ver(0, 1, 0, vec![])).is_some());
    // a longer identifier list outranks its prefix
    assert!(select_binding(&ver(0, 1, 0, vec!["draft", "1"])).is_some());
    assert!(select_binding(&ver(0, 1, 0, vec!["rc"])).is_some());
    assert!(select_binding(&ver(0, 2, 0, vec![])).is_some());
    assert!(select_binding(&ver(1, 0, 0, vec![])).is_some());
}

#[test]
fn numeric_prerelease_identifiers_compare_numerically() {
    // 0.1.1-99 < 0.1.1-100, and both are above 0.1.0-draft
    assert!(select_binding(&ver(0, 1, 1, vec!["99"])).is_some());
    assert!(select_binding(&ver(0, 1, 1, vec!["100"])).is_some());
}

#[test]
fn extension_version_is_found_among_packages() {
    let packages = vec![
        PackageDecl {
            namespace: "wasi".to_string(),
            name: "http".to_string(),
            version: None,
        },
        PackageDecl {
            namespace: "nero".to_string(),
            name: "extension".to_string(),
            version: Some(ver(0, 1, 0, vec!["draft"])),
        },
    ];
    let v = find_extension_version(packages).unwrap();
    assert_eq!((v.major, v.minor, v.patch), (0, 1, 0));
    assert_eq!(v.pre, vec!["draft".to_string()]);
}

#[test]
fn missing_extension_package_yields_nothing() {
    let packages = vec![PackageDecl {
        namespace: "nero".to_string(),
        name: "extension".to_string(),
        version: None,
    }];
    assert!(find_extension_version(packages).is_none());
}

#[test]
fn outgoing_request_materializes_as_record() {
    let out = OutgoingRequest {
        scheme: Some(OutScheme::Https),
        authority: Some("ex.com".to_string()),
        path_with_query: Some("/a/v.mp4?q=1".to_string()),
        method: OutMethod::Get,
        headers: vec![("referer".to_string(), "https://ex.com/".to_string())],
        body: Some(vec![1, 2]),
    };
    let r: HttpRequest = out.into_http_request();
    assert_eq!(r.uri, "https://ex.com/a/v.mp4?q=1");
    assert_eq!(r.method, "GET");
    assert_eq!(r.headers.len(), 1);
    assert_eq!(r.body, Some(vec![1, 2]));
}

#[test]
fn other_method_keeps_its_text() {
    let out = OutgoingRequest {
        scheme: None,
        authority: None,
        path_with_query: Some("/x".to_string()),
        method: OutMethod::Other("QUERY".to_string()),
        headers: vec![],
        body: None,
    };
    let r = out.into_http_request();
    assert_eq!(r.method, "QUERY");
    assert_eq!(r.uri, "/x");
}

#[test]
fn path_extension_detection() {
    assert_eq!(
        uri_path_extension("https://ex.com/a/video.mp4?x=1").as_deref(),
        Some("mp4")
    );
    // the host's dots are not a path extension
    assert_eq!(uri_path_extension("https://ex.com/stream"), None);
    // no dot in the path at all
    assert_eq!(uri_path_extension("https://host/abc"), None);
    // a dot inside a directory does not count
    assert_eq!(uri_path_extension("https://ex.com/v1.0/file"), None);
}

#[test]
fn media_type_from_path_tier() {
    let r = HttpRequest {
        method: "GET".to_string(),
        uri: "https://ex.com/a.jpg".to_string(),
        headers: vec![],
        body: None,
    };
    let m = detect_from_path(&r).unwrap();
    assert_eq!(m.top, "image");
    assert_eq!(m.sub, "jpeg");

    let t = HttpRequest {
        method: "GET".to_string(),
        uri: "https://ex.com/a.torrent".to_string(),
        headers: vec![],
        body: None,
    };
    let m = detect_from_path(&t).unwrap();
    assert!(m.is_torrent());
}

#[test]
fn media_type_from_content_type_text() {
    let m = parse_mime("video/mp4; codecs=avc1").unwrap();
    assert_eq!(m.top, "video");
    assert_eq!(m.sub, "mp4");
    assert!(m.is_video());
    assert!(parse_mime("not a mime").is_none());
}

#[test]
fn media_type_from_magic_bytes() {
    // the PNG signature
    let png: Vec<u8> = vec![0x89, 0x50, 0x4e, 0x47, 0x0d, 0x0a, 0x1a, 0x0a, 0, 0, 0, 0];
    let m = sniff_media_type(&png).unwrap();
    assert_eq!(m.top, "image");
    assert_eq!(m.sub, "png");
    let noise: Vec<u8> = vec![0x00, 0x01];
    assert!(sniff_media_type(&noise).is_none());
}

#[test]
fn version_decode_rejects_non_components() {
    // a plain wasm module header is no component, and empty bytes are
    // nothing at all
    let module: Vec<u8> = vec![0x00, 0x61, 0x73, 0x6d, 0x01, 0x00, 0x00, 0x00];
    assert!(nero::extension::extension_version_from_wasm(&module).is_err());
    let empty: Vec<u8> = Vec::new();
    assert!(nero::extension::extension_version_from_wasm(&empty).is_err());
}

#[test]
fn prerelease_text_splits_into_identifiers() {
    let v = nero::extension::semver_from_parts(1, 2, 3, "draft.7");
    assert_eq!((v.major, v.minor, v.patch), (1, 2, 3));
    assert_eq!(v.pre, vec!["draft".to_string(), "7".to_string()]);
    let w = nero::extension::semver_from_parts(1, 0, 0, "");
    assert!(w.pre.is_empty());
}

#[test]
fn uri_without_authority_assembles_path_only() {
    let out = OutgoingRequest {
        scheme: Some(OutScheme::Http),
        authority: None,
        path_with_query: Some("/only".to_string()),
        method: OutMethod::Post,
        headers: vec![],
        body: None,
    };
    let r = out.into_http_request();
    assert_eq!(r.uri, "http:///only");
    assert_eq!(r.method, "POST");
}

#[test]
fn hidden_file_extension_counts() {
    assert_eq!(uri_path_extension("https://ex.com/.gif").as_deref(), Some("gif"));
    // a trailing dot leaves an empty extension, which maps to nothing
    assert_eq!(uri_path_extension("https://ex.com/file.").as_deref(), Some(""));
}

#[test]
fn text_helpers() {
    assert_eq!(nero::text::u64_to_dec(0), "0");
    assert_eq!(nero::text::u64_to_dec(90210), "90210");
    assert_eq!(nero::text::parse_u64("12345"), Some(12345));
    assert_eq!(nero::text::parse_u64(""), None);
    assert_eq!(nero::text::parse_u64("12a"), None);
    assert_eq!(nero::text::parse_u64("18446744073709551615"), Some(u64::MAX));
    assert_eq!(nero::text::parse_u64("18446744073709551616"), None);
    assert_eq!(nero::text::lower_str("Keep-Alive"), "keep-alive");
    assert!(nero::text::str_contains("still initializing torrent", "initializing"));
    assert!(!nero::text::str_contains("ready", "initializing"));
}
