use nero::extension::Extension;
use nero::resolver::{
    find_episode, generate_alternative_titles, parse_episodes, parse_filename, title_key,
};
use nero::torrent::TorrentFile;
use nero::types::{EpisodeRecord, FilterCategory, Page, SearchFilter, SeriesRecord, VideoRecord};

fn file(index: usize, path: &str) -> TorrentFile {
    TorrentFile {
        index,
        name: path.rsplit('/').next().unwrap_or(path).to_string(),
        path: path.to_string(),
    }
}

/// An extension whose search confirms one series id for one exact
/// query, and records every query asked.
struct MockExtension {
    confirm_query: String,
    series_id: String,
    queries: Vec<String>,
}

impl Extension for MockExtension {
    fn filters(&mut self) -> Result<Vec<FilterCategory>, String> {
        Ok(Vec::new())
    }

    fn search(
        &mut self,
        query: &str,
        _page: Option<u16>,
        _filters: Vec<SearchFilter>,
    ) -> Result<Page<SeriesRecord>, String> {
        self.queries.push(query.to_string());
        let items = if query == self.confirm_query {
            vec![SeriesRecord {
                id: self.series_id.clone(),
                title: self.confirm_query.clone(),
                poster_resource: None,
                synopsis: None,
                kind: None,
            }]
        } else {
            Vec::new()
        };
        Ok(Page { items, has_next_page: false })
    }

    fn get_series_info(&mut self, _series_id: &str) -> Result<SeriesRecord, String> {
        Err("not implemented".to_string())
    }

    fn get_series_episodes(
        &mut self,
        _series_id: &str,
        _page: Option<u16>,
    ) -> Result<Page<EpisodeRecord>, String> {
        Err("not implemented".to_string())
    }

    fn get_series_videos(
        &mut self,
        _series_id: &str,
        _episode_id: &str,
    ) -> Result<Vec<VideoRecord>, String> {
        Err("not implemented".to_string())
    }
}

#[test]
fn parser_extracts_title_and_episode() {
    let p = parse_filename("[Group] My Show - 02.mkv");
    assert_eq!(p.title.as_deref(), Some("My Show"));
    assert_eq!(p.episode.as_deref(), Some("02"));
}

#[test]
fn episode_filter_drops_openings() {
    let files = vec![
        file(0, "[Group] My Show - 01.mkv"),
        file(1, "[Group] My Show - 02.mkv"),
        file(2, "[Group] My Show - OP.mkv"),
    ];
    let eps = parse_episodes(&files);
    let indices: Vec<usize> = eps.iter().map(|e| e.0).collect();
    assert!(indices.contains(&0));
    assert!(indices.contains(&1));
    assert!(!indices.contains(&2));
}

#[test]
fn resolver_finds_requested_episode() {
    let files = vec![
        file(0, "[Group] My Show - 01.mkv"),
        file(1, "[Group] My Show - 02.mkv"),
        file(2, "OP.mkv"),
    ];
    let mut ext = MockExtension {
        confirm_query: "My Show".to_string(),
        series_id: "id-1".to_string(),
        queries: Vec::new(),
    };
    let found = find_episode(&files, &mut ext, "id-1", 2).unwrap();
    assert_eq!(found, Some(1));
    assert!(ext.queries.iter().any(|q| q == "My Show"));
}

#[test]
fn resolver_reports_nothing_when_no_title_confirms() {
    let files = vec![
        file(0, "[Group] My Show - 01.mkv"),
        file(1, "[Group] My Show - 02.mkv"),
    ];
    let mut ext = MockExtension {
        confirm_query: "Another Show".to_string(),
        series_id: "id-1".to_string(),
        queries: Vec::new(),
    };
    let found = find_episode(&files, &mut ext, "id-1", 2).unwrap();
    assert_eq!(found, None);
}

#[test]
fn alternative_titles_enumerate_season_forms() {
    let p = nero::resolver::ParsedElement {
        title: Some("My Show".to_string()),
        year: None,
        season: Some("2".to_string()),
        episode: Some("5".to_string()),
        kind: None,
    };
    let titles = generate_alternative_titles(&p);
    assert_eq!(
        titles,
        vec![
            "My Show".to_string(),
            "My Show 2".to_string(),
            "My Show 2nd".to_string(),
            "My Show Season 2".to_string(),
        ]
    );
}

#[test]
fn title_key_appends_year_and_season() {
    let p = nero::resolver::ParsedElement {
        title: Some("My Show".to_string()),
        year: Some("2021".to_string()),
        season: Some("2".to_string()),
        episode: None,
        kind: None,
    };
    assert_eq!(title_key(&p), "My Show2021S2");
    let q = nero::resolver::ParsedElement {
        title: Some("My Show".to_string()),
        year: None,
        season: None,
        episode: None,
        kind: None,
    };
    assert_eq!(title_key(&q), "My Show");
}
