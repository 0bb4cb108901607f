use muet::ctdb::{ctdb_tocid, get_sort_key, resolve_ctdbtocid, select_track_files, TrackCandidate};
use muet::glob::{build_globset, glob_patterns_of, is_match};
use muet::order::{sort_paths, sort_tracks, SortEntry};

fn cand(path: &str, rel: Option<&str>) -> TrackCandidate {
    TrackCandidate { path: path.to_string(), rel: rel.map(|s| s.to_string()), track_number: None, samples: None }
}

fn track(path: &str, number: Option<&str>, samples: Option<u64>) -> TrackCandidate {
    let rel = path.strip_prefix("/src/").map(|s| s.to_string());
    TrackCandidate { path: path.to_string(), rel, track_number: number.map(|s| s.to_string()), samples }
}

#[test]
fn filter_patterns_from_extensions_and_globs() {
    let pats: Vec<String> = glob_patterns_of(" flac, .mp3,,CD*/*.wav ").into_iter().map(|v| v.into_iter().collect()).collect();
    assert_eq!(pats, vec!["**/*.flac", "**/*.mp3", "CD*/*.wav"]);
}

#[test]
fn globset_matches_extensions() {
    let gs = build_globset("flac,mp3").ok().unwrap();
    assert!(is_match(&gs, "01.flac"));
    assert!(is_match(&gs, "CD1/01.flac"));
    assert!(is_match(&gs, "a.mp3"));
    assert!(!is_match(&gs, "cover.png"));
}

#[test]
fn invalid_filter_is_an_error() {
    assert!(build_globset("a[").is_err());
}

#[test]
fn track_selection_with_and_without_filter() {
    let c = vec![
        cand("/src/01.flac", Some("01.flac")),
        cand("/src/cover.jpg", Some("cover.jpg")),
        cand("/src/CD2/02.flac", Some("CD2/02.flac")),
        cand("/elsewhere/x.flac", None),
    ];
    let all = select_track_files(&c, None);
    assert_eq!(all.len(), 4);
    let some = select_track_files(&c, Some("flac"));
    let paths: Vec<&str> = some.iter().map(|t| t.path.as_str()).collect();
    assert_eq!(paths, vec!["/src/01.flac", "/src/CD2/02.flac", "/elsewhere/x.flac"]);
    let inner = select_track_files(&c, Some("0*.flac"));
    let paths: Vec<&str> = inner.iter().map(|t| t.path.as_str()).collect();
    assert_eq!(paths, vec!["/src/01.flac", "/src/CD2/02.flac"]);
    let broken = select_track_files(&c, Some("a["));
    assert_eq!(broken.len(), 4);
}

#[test]
fn sort_key_from_track_number() {
    assert_eq!(get_sort_key(Some("3/12"), "/src/x.flac"), (0, 3, String::new()));
    assert_eq!(get_sort_key(Some("+7"), "/src/x.flac"), (0, 7, String::new()));
    assert_eq!(get_sort_key(Some("A3"), "/src/x.flac"), (1, 0, "x.flac".to_string()));
    assert_eq!(get_sort_key(None, "/src/y.flac"), (1, 0, "y.flac".to_string()));
    assert_eq!(get_sort_key(Some("99999999999"), "/s/z.flac"), (1, 0, "z.flac".to_string()));
}

#[test]
fn tracks_sorted_by_key_then_natural_path() {
    let e = |k: (u8, u32), p: &str| SortEntry { key: (k.0, k.1, String::new()), path: p.to_string(), samples: None };
    let v = vec![e((1, 0), "/s/b10.flac"), e((0, 2), "/s/z.flac"), e((1, 0), "/s/b2.flac"), e((0, 1), "/s/y.flac")];
    let r = sort_tracks(v);
    let paths: Vec<&str> = r.iter().map(|t| t.path.as_str()).collect();
    assert_eq!(paths, vec!["/s/y.flac", "/s/z.flac", "/s/b2.flac", "/s/b10.flac"]);
}

#[test]
fn equal_tracks_keep_their_order() {
    let e = |p: &str, n: u64| SortEntry { key: (0, 4, String::new()), path: p.to_string(), samples: Some(n) };
    let v = vec![e("/s/a.flac", 3), e("/s/a.flac", 1), e("/s/a.flac", 2), SortEntry { key: (0, 1, String::new()), path: "/s/z.flac".to_string(), samples: Some(9) }];
    let r = sort_tracks(v);
    let samples: Vec<Option<u64>> = r.iter().map(|t| t.samples).collect();
    assert_eq!(samples, vec![Some(9), Some(3), Some(1), Some(2)]);
}

#[test]
fn paths_sorted_naturally() {
    let r = sort_paths(vec!["shot-2".to_string(), "shot-1".to_string(), "shot-11".to_string()]);
    assert_eq!(r, vec!["shot-1", "shot-2", "shot-11"]);
}

#[test]
fn ctdb_tocid_known_values() {
    let r = ctdb_tocid(&vec![Some(588 * 1000), None, Some(588 * 2000 + 5)]).unwrap();
    assert_eq!(r, "GpJbFFQqlJneqDLiTGqNb8V_XWI-");
    let r = ctdb_tocid(&vec![Some(588 * 1000)]).unwrap();
    assert_eq!(r, "EJFk_Wc2AcSN8NtqCvDQG8hT6e8-");
}

#[test]
fn ctdb_tocid_without_tracks() {
    assert!(ctdb_tocid(&vec![]).is_none());
    assert!(ctdb_tocid(&vec![None, None]).is_none());
}

#[test]
fn ctdb_tocid_has_no_base64_specials() {
    let r = ctdb_tocid(&vec![Some(12345678), Some(87654321), Some(1)]).unwrap();
    assert!(!r.contains('+') && !r.contains('/') && !r.contains('='));
}

#[test]
fn ctdb_tocid_has_the_id_shape() {
    for samples in [vec![Some(12345678), Some(87654321), Some(1)], vec![Some(588 * 1000)], vec![None, Some(7)]] {
        let r = ctdb_tocid(&samples).unwrap();
        assert_eq!(r.chars().count(), 28);
        assert!(r.ends_with('-'));
        assert!(r[..27].chars().all(|c| c.is_ascii_alphanumeric() || c == '.' || c == '_'));
    }
}

#[test]
fn source_tocid_orders_tracks_by_number() {
    let files = vec![
        track("/src/b.flac", Some("2"), Some(588 * 2000 + 5)),
        track("/src/cover.jpg", None, None),
        track("/src/a.flac", Some("1/2"), Some(588 * 1000)),
    ];
    assert_eq!(resolve_ctdbtocid(&files, Some("flac")), Some("GpJbFFQqlJneqDLiTGqNb8V_XWI-".to_string()));
    assert_eq!(resolve_ctdbtocid(&files, None), Some("GpJbFFQqlJneqDLiTGqNb8V_XWI-".to_string()));
    let reversed = vec![track("/src/a.flac", Some("2"), Some(588 * 1000)), track("/src/b.flac", Some("1"), Some(588 * 2000 + 5))];
    assert_eq!(resolve_ctdbtocid(&reversed, None), ctdb_tocid(&vec![Some(588 * 2000 + 5), Some(588 * 1000)]));
}

#[test]
fn source_tocid_needs_tracks() {
    let files = vec![track("/src/cover.jpg", None, None)];
    assert_eq!(resolve_ctdbtocid(&files, Some("flac")), None);
    assert_eq!(resolve_ctdbtocid(&files, None), None);
    assert_eq!(resolve_ctdbtocid(&vec![], None), None);
}

#[test]
fn sorted_paths_never_step_back() {
    let r = sort_paths(vec![
        "b10".to_string(),
        "a".to_string(),
        "b2".to_string(),
        "b1".to_string(),
        "a".to_string(),
    ]);
    assert_eq!(r, vec!["a", "a", "b1", "b2", "b10"]);
    for w in r.windows(2) {
        assert_ne!(alphanumeric_sort::compare_path(&w[0], &w[1]), std::cmp::Ordering::Greater);
    }
}

#[test]
fn untagged_tracks_follow_natural_path_order() {
    let files = vec![track("/src/10.flac", None, Some(588 * 1000)), track("/src/2.flac", None, Some(588 * 2000 + 5))];
    assert_eq!(resolve_ctdbtocid(&files, None), ctdb_tocid(&vec![Some(588 * 2000 + 5), Some(588 * 1000)]));
    assert_ne!(resolve_ctdbtocid(&files, None), ctdb_tocid(&vec![Some(588 * 1000), Some(588 * 2000 + 5)]));
}

#[test]
fn empty_filter_compiles() {
    assert!(build_globset("").is_ok());
}
