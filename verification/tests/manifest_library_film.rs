use muet::config::Format;
use muet::film::{
    film_nix_in, get_film_link_name, get_origin_hash, get_poster_info, is_stale_video_link, poster_candidates,
    resolve_video_path, TorrentFile, TorrentInfo,
};
use muet::hash::PLACEHOLDER_HASH;
use muet::library::{
    get_library_folder_name, grounded_link_source_of, library_folder_from_toml, injected_path_of, is_stale_output_link, logical_link_source_of,
    migrate_link_target, output_link_path_of, path_starts_with_str, physical_output_path_of, strip_path_prefix_str,
};
use muet::manifest::{
    cover_choice, is_track_extension_str, manifest_cover_fields, manifest_torrent_fields, manifest_track_files,
    render_album_manifest, ManifestCandidate, TorrentFound,
};

fn mc(path: &str, rel: &str, ext: Option<&str>) -> ManifestCandidate {
    ManifestCandidate { path: path.to_string(), rel: rel.to_string(), extension: ext.map(|e| e.to_string()) }
}

#[test]
fn track_extensions_ignore_ascii_case() {
    assert!(is_track_extension_str("FLAC"));
    assert!(is_track_extension_str("Mp3"));
    assert!(is_track_extension_str("wav"));
    assert!(!is_track_extension_str("ogg"));
    assert!(!is_track_extension_str(""));
}

#[test]
fn manifest_tracks_filtered_and_sorted() {
    let c = vec![
        mc("/a/10.flac", "10.flac", Some("flac")),
        mc("/a/2.flac", "2.flac", Some("flac")),
        mc("/a/cover.png", "cover.png", Some("png")),
        mc("/a/1.MP3", "1.MP3", Some("MP3")),
        mc("/a/notes", "notes", None),
    ];
    let r = manifest_track_files(&c, "flac,mp3,wav").ok().unwrap();
    assert_eq!(r, vec!["/a/2.flac", "/a/10.flac"]);
    let r = manifest_track_files(&c, "*.MP3").ok().unwrap();
    assert_eq!(r, vec!["/a/1.MP3"]);
    assert!(manifest_track_files(&c, "[").is_err());
}

#[test]
fn cover_and_torrent_fields() {
    assert_eq!(cover_choice(true, true).unwrap(), "cover.png");
    assert_eq!(cover_choice(false, true).unwrap(), "cover.jpg");
    assert!(cover_choice(false, false).is_none());
    assert_eq!(manifest_cover_fields(Some("cover.jpg"), Some("sha256-x")), ("./cover.jpg".to_string(), "sha256-x".to_string()));
    assert_eq!(manifest_cover_fields(None, None), ("./cover.png".to_string(), PLACEHOLDER_HASH.to_string()));
    let t = Some(TorrentFound { in_info: true, name: "x.torrent".to_string() });
    assert_eq!(manifest_torrent_fields(&t, Some("h")), ("./Info/x.torrent".to_string(), "h".to_string()));
    let t = Some(TorrentFound { in_info: false, name: "y.torrent".to_string() });
    assert_eq!(manifest_torrent_fields(&t, None).0, "./y.torrent");
    assert_eq!(manifest_torrent_fields(&None, None), ("./Info/source.torrent".to_string(), PLACEHOLDER_HASH.to_string()));
}

fn expected_manifest(tf: &str, th: &str, cf: &str, ch: &str, tracks: &[&str]) -> String {
    let mut out = String::new();
    out.push_str(&format!("{{ munix }}:")); out.push('\n');
    out.push_str(&format!("munix.mkAlbum {{")); out.push('\n');
    out.push_str(&format!("  name = \"\";")); out.push('\n');
    out.push_str(&format!("  origin = {{")); out.push('\n');
    out.push_str(&format!("    path = \"\";")); out.push('\n');
    out.push_str(&format!("    hash = \"sha256-AAAAAAAAAAAAAAAAAAAAAAAAAAAAAAAAAAAAAAAAAAA=\";")); out.push('\n');
    out.push_str(&format!("  }};")); out.push('\n');
    out.push_str(&format!("  source.torrent = {{")); out.push('\n');
    out.push_str(&format!("    file = {tf};")); out.push('\n');
    out.push_str(&format!("    name = \"\";")); out.push('\n');
    out.push_str(&format!("    hash = \"{th}\";")); out.push('\n');
    out.push_str(&format!("  }};")); out.push('\n');
    out.push_str(&format!("  source.web = {{")); out.push('\n');
    out.push_str(&format!("    url = \"\";")); out.push('\n');
    out.push_str(&format!("    hash = \"sha256-AAAAAAAAAAAAAAAAAAAAAAAAAAAAAAAAAAAAAAAAAAA=\";")); out.push('\n');
    out.push_str(&format!("  }};")); out.push('\n');
    out.push_str(&format!("  cover = {{")); out.push('\n');
    out.push_str(&format!("    file = {cf};")); out.push('\n');
    out.push_str(&format!("    hash = \"{ch}\";")); out.push('\n');
    out.push_str(&format!("  }};")); out.push('\n');
    out.push_str(&format!("  album = {{")); out.push('\n');
    out.push_str(&format!("    metadata = {{")); out.push('\n');
    out.push_str(&format!("    }};")); out.push('\n');
    out.push_str(&format!("    mbid = {{")); out.push('\n');
    out.push_str(&format!("    }};")); out.push('\n');
    out.push_str(&format!("  }};")); out.push('\n');
    out.push_str(&format!("  tracks = [")); out.push('\n');
    let list: Vec<&str> = if tracks.is_empty() { vec![""] } else { tracks.to_vec() };
    for rel in list {
        out.push_str(&format!("    {{")); out.push('\n');
        out.push_str(&format!("      file = \"{rel}\";")); out.push('\n');
        out.push_str(&format!("      metadata = {{")); out.push('\n');
        out.push_str(&format!("      }};")); out.push('\n');
        out.push_str(&format!("      mbid = {{")); out.push('\n');
        out.push_str(&format!("      }};")); out.push('\n');
        out.push_str(&format!("    }}")); out.push('\n');
    }
    out.push_str(&format!("  ];")); out.push('\n');
    out.push_str(&format!("}}")); out.push('\n');
    out
}

#[test]
fn manifest_text_with_tracks() {
    let tracks = vec!["CD1/01.flac".to_string(), "CD1/02.flac".to_string()];
    let r = render_album_manifest("./Info/a.torrent", "sha256-t", "./cover.png", "sha256-c", &tracks);
    assert_eq!(r, expected_manifest("./Info/a.torrent", "sha256-t", "./cover.png", "sha256-c", &["CD1/01.flac", "CD1/02.flac"]));
}

#[test]
fn manifest_text_without_tracks() {
    let r = render_album_manifest("./Info/source.torrent", PLACEHOLDER_HASH, "./cover.png", PLACEHOLDER_HASH, &vec![]);
    assert_eq!(r, expected_manifest("./Info/source.torrent", PLACEHOLDER_HASH, "./cover.png", PLACEHOLDER_HASH, &[]));
}

#[test]
fn path_prefixes_by_component() {
    assert!(path_starts_with_str("/mnt/store/nix/x", "/mnt/store"));
    assert!(path_starts_with_str("/mnt/store", "/mnt/store/"));
    assert!(!path_starts_with_str("/mnt/store2/x", "/mnt/store"));
    assert!(path_starts_with_str("/a", "/"));
    assert_eq!(strip_path_prefix_str("/mnt/store/nix/store/x", "/mnt/store").unwrap(), "nix/store/x");
    assert!(strip_path_prefix_str("/other/x", "/mnt/store").is_none());
}

#[test]
fn stale_output_links() {
    assert!(is_stale_output_link("01.flac", "/mnt/store/nix/store/a/01.flac", "/mnt/store", Format::Flac));
    assert!(is_stale_output_link("metadata.toml", "/mnt/store/x", "/mnt/store", Format::Flac));
    assert!(!is_stale_output_link("metadata.toml", "/mnt/store/x", "/mnt/store", Format::Opus));
    assert!(!is_stale_output_link("01.flac", "/home/u/01.flac", "/mnt/store", Format::Flac));
    assert!(is_stale_output_link("01.opus", "/mnt/store/y", "/mnt/store", Format::Opus));
}

#[test]
fn link_sources() {
    assert_eq!(
        grounded_link_source_of("/mnt/store/nix/store/o/01.flac", Some("/nix/store/q-01.flac"), "/mnt/store/nix/store/o", "/mnt/store"),
        "/mnt/store/nix/store/q-01.flac"
    );
    assert_eq!(
        grounded_link_source_of("/s/o/01.flac", Some("../q/01.flac"), "/s/o", "/s"),
        "/s/o/../q/01.flac"
    );
    assert_eq!(grounded_link_source_of("/s/o/01.flac", Some("/abs/x"), "/s/o", "/s"), "/s/o/01.flac");
    assert_eq!(grounded_link_source_of("/nix/store/o/01.flac", None, "/nix/store/o", "/s"), "/s/nix/store/o/01.flac");
    assert_eq!(grounded_link_source_of("/s/o/01.flac", None, "/s/o", "/s"), "/s/o/01.flac");
    assert_eq!(logical_link_source_of("/s/nix/store/o/01.flac", None, "/s"), "/nix/store/o/01.flac");
    assert_eq!(logical_link_source_of("/s/nix/store/o/01.flac", Some("/nix/store/z"), "/s"), "/nix/store/z");
    assert_eq!(logical_link_source_of("/t/01.flac", None, "/s"), "/t/01.flac");
}

#[test]
fn output_paths() {
    assert_eq!(physical_output_path_of("/mnt/store", "/nix/store/abc-album"), "/mnt/store/nix/store/abc-album");
    assert_eq!(physical_output_path_of("/mnt/store", "rel/x"), "/mnt/store/rel/x");
    assert_eq!(output_link_path_of("/mnt/store", "wall", "0abc", Format::Opus), "/mnt/store/gcroots/albums/wall-0abc-opus");
    assert_eq!(injected_path_of("/mnt/store", "/usr/bin"), "/mnt/store/gcroots/profiles/env/bin:/usr/bin");
}

#[test]
fn library_folder_names() {
    assert_eq!(get_library_folder_name(Some("AC/DC"), Some("Back in Black")), "AC_DC - Back in Black");
    assert_eq!(get_library_folder_name(Some(""), Some("A/B")), "A_B");
    assert_eq!(get_library_folder_name(None, None), "Unknown Album");
    assert_eq!(get_library_folder_name(Some("Unknown Artist"), Some("X")), "X");
}

#[test]
fn migrated_targets() {
    assert_eq!(
        migrate_link_target("/nix/store/abc-x/01.flac", "/mnt/store").unwrap(),
        "/mnt/store/nix/store/abc-x/01.flac"
    );
    assert_eq!(
        migrate_link_target("/old/root/nix/store/abc", "/mnt/store").unwrap(),
        "/mnt/store/nix/store/abc"
    );
    assert!(migrate_link_target("/home/u/x", "/mnt/store").is_none());
}

#[test]
fn film_origin_and_poster() {
    assert_eq!(get_origin_hash(Some("sha256-o")), "sha256-o");
    assert_eq!(get_origin_hash(Some("")), PLACEHOLDER_HASH);
    assert_eq!(get_origin_hash(None), PLACEHOLDER_HASH);
    assert_eq!(poster_candidates(), vec!["poster.png", "poster.jpg", "cover.png", "cover.jpg"]);
    assert_eq!(get_poster_info(Some("cover.jpg"), Some("h")), ("cover.jpg".to_string(), "h".to_string()));
    assert_eq!(get_poster_info(None, None), ("poster.png".to_string(), PLACEHOLDER_HASH.to_string()));
    assert_eq!(film_nix_in("/films/x"), "/films/x/film.nix");
}

fn tf(path: &str, length: i64) -> TorrentFile {
    TorrentFile { length, path: path.to_string() }
}

#[test]
fn video_of_multi_file_torrent() {
    let t = TorrentInfo {
        name: "Film".to_string(),
        files: Some(vec![tf("sample.mkv", 10), tf("film.MKV", 900), tf("extra.mp4", 900), tf("film.srt", 5000)]),
    };
    assert_eq!(resolve_video_path(&t, None).ok().unwrap(), "Film/film.MKV");
    assert_eq!(resolve_video_path(&t, Some("*.mp4")).ok().unwrap(), "Film/extra.mp4");
    assert_eq!(resolve_video_path(&t, Some("*.avi")).ok().unwrap(), "");
    assert!(resolve_video_path(&t, Some("[")).is_err());
}

#[test]
fn video_of_single_file_torrent() {
    let t = TorrentInfo { name: "Film.2020.webm".to_string(), files: None };
    assert_eq!(resolve_video_path(&t, None).ok().unwrap(), "Film.2020.webm");
    let t = TorrentInfo { name: "notes.txt".to_string(), files: None };
    assert_eq!(resolve_video_path(&t, None).ok().unwrap(), "");
    assert_eq!(resolve_video_path(&t, Some("*.txt")).ok().unwrap(), "notes.txt");
}

#[test]
fn film_link_names() {
    assert_eq!(get_film_link_name("Alien", "1979", "Ridley Scott", "Alien/alien.mkv"), "Alien - 1979 - Ridley Scott.mkv");
    assert_eq!(get_film_link_name("", "", "", "x"), "Unknown Title - Unknown Year - Unknown Director.mkv");
    assert_eq!(get_film_link_name("AC/DC", "2000", "D", "a.mp4"), "AC_DC - 2000 - D.mp4");
    assert!(is_stale_video_link("old.mkv", "/f/old.mkv", "mkv", "/f/new.mkv"));
    assert!(is_stale_video_link("new.mp4", "/f/new.mp4", "mkv", "/f/new.mp4"));
    assert!(!is_stale_video_link("poster.png", "/f/poster.png", "mkv", "/f/new.mkv"));
}

#[test]
fn album_data_cover_fields() {
    let (f, h) = muet::manifest::cover_fields(Some("cover.jpg"), Some("sha256-x"));
    assert_eq!((f.as_str(), h.as_str()), ("cover.jpg", "sha256-x"));
    let (f, h) = muet::manifest::cover_fields(None, None);
    assert_eq!((f.as_str(), h.as_str()), ("cover.png", PLACEHOLDER_HASH));
}

#[test]
fn migrating_twice_changes_nothing() {
    let once = migrate_link_target("/nix/store/abc-album/01.flac", "/data/store").unwrap();
    assert_eq!(once, "/data/store/nix/store/abc-album/01.flac");
    assert_eq!(migrate_link_target(&once, "/data/store"), Some(once.clone()));
    let slash = migrate_link_target("../../nix/store/x", "/data/").unwrap();
    assert_eq!(migrate_link_target(&slash, "/data/"), Some(slash.clone()));
    let bare = migrate_link_target("/nix/store/abc-album/01.flac", "").unwrap();
    assert_eq!(bare, "nix/store/abc-album/01.flac");
    assert_eq!(migrate_link_target(&bare, ""), None);
    let rooted = migrate_link_target("/nix/store//home/u/x", "/data").unwrap();
    assert_eq!(rooted, "/home/u/x");
    assert_eq!(migrate_link_target(&rooted, "/data"), None);
}

#[test]
fn library_folder_read_from_metadata_text() {
    let text = "[album]\nalbumartist = \"AC/DC\"\nalbum = \"Back in Black\"\n";
    assert_eq!(library_folder_from_toml(text), Ok("AC_DC - Back in Black".to_string()));
    assert_eq!(library_folder_from_toml("[album]\nalbum = \"Solo\"\n"), Ok("Solo".to_string()));
    assert_eq!(library_folder_from_toml("title = 1\n"), Ok("Unknown Album".to_string()));
    assert_eq!(library_folder_from_toml("[album\n"), Err(()));
}
