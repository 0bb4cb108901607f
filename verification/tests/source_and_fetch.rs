use muet::fetch::{check_fetch_command, fetch_command_field, skip_fetch, source_env, FetchError};
use muet::source::{
    needs_origin_path_field, needs_torrent_name, pinned_store_path, resolve_source_origin, source_field,
    source_link_path, SourceFacts,
};

fn facts() -> SourceFacts {
    SourceFacts {
        album_name: "the-wall".to_string(),
        source_type: Some("torrent".to_string()),
        source_name_attr: String::new(),
        detected_torrent_name: "Pink Floyd - The Wall".to_string(),
        source_hash: "sha256-AbC/+x".to_string(),
        converted_hash: Some(" 0abc\n".to_string()),
        store_origin: None,
        origin_base_path: "/origins".to_string(),
        origin_path_field: String::new(),
    }
}

#[test]
fn torrent_source_resolves_under_torrent_dir() {
    let r = resolve_source_origin(&facts());
    assert_eq!(r.internal_name, "Pink Floyd - The Wall");
    assert_eq!(r.sanitized_name, "pink-floyd-the-wall");
    assert_eq!(r.link_name, "pink-floyd-the-wall-0abc");
    assert_eq!(r.origin_path, "/origins/torrent/pink-floyd-the-wall-0abc");
    assert!(!r.is_in_store);
    assert_eq!(r.album_name, "the-wall");
    assert_eq!(r.truncated_hash, "0abc");
}

#[test]
fn pinned_source_wins() {
    let mut f = facts();
    f.store_origin = Some("/mnt/store/nix/store/xyz-src".to_string());
    let r = resolve_source_origin(&f);
    assert!(r.is_in_store);
    assert_eq!(r.origin_path, "/mnt/store/nix/store/xyz-src");
}

#[test]
fn source_name_attribute_wins() {
    let mut f = facts();
    f.source_name_attr = "Given Name".to_string();
    let r = resolve_source_origin(&f);
    assert_eq!(r.internal_name, "Given Name");
    assert_eq!(r.link_name, "given-name-0abc");
}

#[test]
fn web_source_uses_origin_field_or_album_name() {
    let mut f = facts();
    f.source_type = Some("web".to_string());
    f.detected_torrent_name = String::new();
    let r = resolve_source_origin(&f);
    assert_eq!(r.internal_name, "the-wall");
    assert_eq!(r.origin_path, "/origins/the-wall");
    f.origin_path_field = "/data/wall".to_string();
    assert_eq!(resolve_source_origin(&f).origin_path, "/data/wall");
}

#[test]
fn source_stage_decisions() {
    assert_eq!(source_field("torrent", "hash"), "source.torrent.hash");
    assert!(needs_torrent_name(&Some("torrent".to_string()), ""));
    assert!(!needs_torrent_name(&Some("torrent".to_string()), "x"));
    assert!(!needs_torrent_name(&Some("web".to_string()), ""));
    assert!(needs_origin_path_field(&Some("web".to_string()), false));
    assert!(!needs_origin_path_field(&Some("torrent".to_string()), false));
    assert!(!needs_origin_path_field(&None, true));
    assert!(needs_origin_path_field(&None, false));
    assert_eq!(source_link_path("/mnt/store", "x-1"), "/mnt/store/gcroots/source/x-1");
}

#[test]
fn pinned_store_path_from_link_target() {
    assert_eq!(
        pinned_store_path("/nix/store/abc-src", "/mnt/store").unwrap(),
        "/mnt/store/nix/store/abc-src"
    );
    assert!(pinned_store_path("/home/u/src", "/mnt/store").is_none());
}

#[test]
fn fetch_fields_and_errors() {
    assert_eq!(fetch_command_field("torrent").ok().unwrap(), "commands.torrent.fetch");
    assert_eq!(fetch_command_field("web").ok().unwrap(), "commands.web.fetch");
    let e = fetch_command_field("ftp").err().unwrap();
    assert_eq!(e.message(), "Unknown source: 'ftp'. Expected 'torrent' or 'web'.");
    let e = check_fetch_command("commands.web.fetch", String::new()).err().unwrap();
    assert!(matches!(e, FetchError::MissingCommand(_)));
    assert_eq!(e.message(), "Command 'commands.web.fetch' is missing or empty in config.nix");
    assert_eq!(check_fetch_command("f", "wget x".to_string()).ok().unwrap(), "wget x");
}

#[test]
fn fetch_skipped_for_pinned_torrents() {
    assert!(skip_fetch("torrent", true));
    assert!(!skip_fetch("torrent", false));
    assert!(!skip_fetch("web", true));
}

#[test]
fn fetch_environment_names() {
    let r = resolve_source_origin(&facts());
    let env = source_env("MUET", &r);
    assert_eq!(env[0], ("MUET_ORIGIN_PATH".to_string(), r.origin_path.clone()));
    assert_eq!(env[1], ("MUET_SOURCE_NAME".to_string(), r.internal_name.clone()));
    assert_eq!(env[2], ("MUET_SANITIZED_SOURCE_NAME".to_string(), r.sanitized_name.clone()));
}

#[test]
fn truncated_hash_follows_the_source_hash() {
    let mut f = facts();
    f.converted_hash = None;
    assert_eq!(resolve_source_origin(&f).truncated_hash, "AbC_-x");
    f.source_type = None;
    let r = resolve_source_origin(&f);
    assert_eq!(r.truncated_hash, "nohash");
    assert_eq!(r.link_name, "pink-floyd-the-wall-nohash");
    let mut g = facts();
    g.source_hash = String::new();
    assert_eq!(resolve_source_origin(&g).truncated_hash, "nohash");
}
