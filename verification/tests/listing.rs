use nero::resolver::filter_video_files;
use nero::torrent::{torrent_files_from_names, TorrentFile};

#[test]
fn listing_keeps_positions_and_base_names() {
    let names = vec![
        "Show/Episode 1.mkv".to_string(),
        "Show/".to_string(),
        "extras/notes.txt".to_string(),
    ];
    let files = torrent_files_from_names(&names).unwrap();
    let view: Vec<(usize, &str, &str)> = files
        .iter()
        .map(|f| (f.index, f.name.as_str(), f.path.as_str()))
        .collect();
    assert_eq!(
        view,
        vec![
            (0, "Episode 1.mkv", "Show/Episode 1.mkv"),
            (2, "notes.txt", "extras/notes.txt"),
        ]
    );
}

#[test]
fn listing_without_usable_names_is_an_error() {
    let names = vec!["a/".to_string(), "".to_string()];
    assert!(torrent_files_from_names(&names).is_err());
    let empty: Vec<String> = Vec::new();
    assert!(torrent_files_from_names(&empty).is_err());
}

#[test]
fn video_filter_keeps_video_extensions() {
    let files = vec![
        TorrentFile { index: 0, name: "a.mkv".to_string(), path: "x/a.mkv".to_string() },
        TorrentFile { index: 1, name: "b.txt".to_string(), path: "x/b.txt".to_string() },
        TorrentFile { index: 2, name: "c.mp4".to_string(), path: "x/c.mp4".to_string() },
        TorrentFile { index: 3, name: "d.jpg".to_string(), path: "x/d.jpg".to_string() },
    ];
    let kept = filter_video_files(files);
    let indices: Vec<usize> = kept.iter().map(|f| f.index).collect();
    assert_eq!(indices, vec![0, 2]);
}
