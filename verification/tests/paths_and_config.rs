use muet::config::{AppConfig, FlacConfig, Format, LibraryConfig, OpusConfig};
use muet::paths::{
    album_nix_in, expand_path, expand_path_with_home, ground_logical_path, manifest_file_path_of,
    resolve_album_path, AlbumPathError, PathProbe,
};
use muet::text::path_join_str;

fn config(flac: Option<FlacConfig>, opus: Option<OpusConfig>) -> AppConfig {
    AppConfig {
        store: Some("/mnt/store".to_string()),
        origin: None,
        environment: None,
        library: Some(LibraryConfig { flac, opus }),
    }
}

fn flac(enable: Option<bool>, album_root: Option<bool>, lib_root: Option<bool>, root: Option<&str>) -> FlacConfig {
    FlacConfig {
        enable,
        root: root.map(|s| s.to_string()),
        link_to_album_root: album_root,
        link_to_library_root: lib_root,
    }
}

fn opus(enable: Option<bool>, album_root: Option<bool>, lib_root: Option<bool>, root: Option<&str>) -> OpusConfig {
    OpusConfig {
        enable,
        kbps: Some(128),
        root: root.map(|s| s.to_string()),
        link_to_album_root: album_root,
        link_to_library_root: lib_root,
    }
}

#[test]
fn path_join_follows_pathbuf_push() {
    assert_eq!(path_join_str("/a", "b"), "/a/b");
    assert_eq!(path_join_str("/a/", "b"), "/a/b");
    assert_eq!(path_join_str("/a", "/b"), "/b");
    assert_eq!(path_join_str("", "b"), "b");
    assert_eq!(path_join_str("a", ""), "a/");
}

#[test]
fn expand_home_forms() {
    assert_eq!(expand_path_with_home("~", Some("/home/u")), "/home/u");
    assert_eq!(expand_path_with_home("~/music", Some("/home/u")), "/home/u/music");
    assert_eq!(expand_path_with_home("~other/x", Some("/home/u")), "~other/x");
    assert_eq!(expand_path_with_home("/srv/x", Some("/home/u")), "/srv/x");
    assert_eq!(expand_path_with_home("~/music", None), "~/music");
}

#[test]
fn expand_path_leaves_absolute_paths() {
    assert_eq!(expand_path("/srv/music"), "/srv/music");
}

#[test]
fn ground_rewrites_every_logical_prefix() {
    assert_eq!(
        ground_logical_path("cp /nix/store/abc-x /nix/store/def".to_string(), "/mnt/store"),
        "cp /mnt/store/nix/store/abc-x /mnt/store/nix/store/def"
    );
    assert_eq!(
        ground_logical_path("/nix/store/abc".to_string(), "/mnt/store/"),
        "/mnt/store/nix/store/abc"
    );
    assert_eq!(ground_logical_path("/nix/storeX".to_string(), "/s"), "/nix/storeX");
    assert_eq!(ground_logical_path("echo hi".to_string(), "/s"), "echo hi");
}

#[test]
fn album_path_from_directory() {
    let probe = PathProbe {
        canonical: Some("/music/album".to_string()),
        is_dir: true,
        is_file: false,
        has_album_nix: true,
    };
    assert_eq!(resolve_album_path(&probe).ok().unwrap(), "/music/album/album.nix");
}

#[test]
fn album_path_from_file() {
    let probe = PathProbe {
        canonical: Some("/music/album/album.nix".to_string()),
        is_dir: false,
        is_file: true,
        has_album_nix: false,
    };
    assert_eq!(resolve_album_path(&probe).ok().unwrap(), "/music/album/album.nix");
}

#[test]
fn album_path_resolved_again_is_itself() {
    for dir in ["/music/album", "/music/album/", "/"] {
        let first = PathProbe { canonical: Some(dir.to_string()), is_dir: true, is_file: false, has_album_nix: true };
        let once = resolve_album_path(&first).ok().unwrap();
        let second = PathProbe { canonical: Some(once.clone()), is_dir: false, is_file: true, has_album_nix: false };
        assert_eq!(resolve_album_path(&second).ok().unwrap(), once);
    }
}

#[test]
fn album_path_errors() {
    let missing = PathProbe { canonical: None, is_dir: false, is_file: false, has_album_nix: false };
    assert!(resolve_album_path(&missing) == Err(AlbumPathError::PathDoesNotExist));
    let other = PathProbe {
        canonical: Some("/music/album/cover.png".to_string()),
        is_dir: false,
        is_file: true,
        has_album_nix: false,
    };
    assert!(resolve_album_path(&other) == Err(AlbumPathError::NoAlbumNix));
    let empty_dir = PathProbe {
        canonical: Some("/music/album".to_string()),
        is_dir: true,
        is_file: false,
        has_album_nix: false,
    };
    assert!(resolve_album_path(&empty_dir) == Err(AlbumPathError::NoAlbumNix));
    assert_eq!(album_nix_in("/music/album"), "/music/album/album.nix");
}

#[test]
fn manifest_files_resolve_relative_to_manifest() {
    assert_eq!(
        manifest_file_path_of("/music/a/album.nix", "./Info/x.torrent").unwrap(),
        "/music/a/Info/x.torrent"
    );
    assert_eq!(manifest_file_path_of("/music/a/album.nix", "/abs/c.png").unwrap(), "/abs/c.png");
    assert_eq!(manifest_file_path_of("/music/a/album.nix", "cover.png").unwrap(), "cover.png");
    assert!(manifest_file_path_of("/music/a/album.nix", "").is_none());
    assert!(manifest_file_path_of("/music/a/album.nix", "null").is_none());
    assert_eq!(manifest_file_path_of("album.nix", "./c.png").unwrap(), "c.png");
}

#[test]
fn store_path_defaults_and_keeps_absolute() {
    let c = AppConfig { store: None, origin: None, environment: None, library: None };
    assert_eq!(c.get_store_path(), "/nix/store");
    let c2 = config(None, None);
    assert_eq!(c2.get_store_path(), "/mnt/store");
    assert_eq!(c.origin_base_path(), ".");
}

#[test]
fn build_formats_follow_enable_flags() {
    let c = config(Some(flac(Some(true), None, None, None)), Some(opus(Some(true), None, None, None)));
    let f = c.build_formats();
    assert!(f == vec![Format::Flac, Format::Opus]);
    let c = config(Some(flac(None, None, None, None)), Some(opus(Some(true), None, None, None)));
    assert!(c.build_formats() == vec![Format::Opus]);
    let c = AppConfig { store: None, origin: None, environment: None, library: None };
    assert!(c.build_formats().is_empty());
}

#[test]
fn album_root_link_defaults() {
    let c = AppConfig { store: None, origin: None, environment: None, library: None };
    assert!(c.links_to_album_root(Format::Flac));
    assert!(!c.links_to_album_root(Format::Opus));
    let c = config(Some(flac(None, Some(false), None, None)), Some(opus(None, Some(true), None, None)));
    assert!(!c.links_to_album_root(Format::Flac));
    assert!(c.links_to_album_root(Format::Opus));
}

#[test]
fn library_link_root_requires_all_conditions() {
    let c = config(Some(flac(Some(true), None, Some(true), Some("~/lib/flac"))), Some(opus(Some(true), None, Some(false), Some("/lib/opus"))));
    assert_eq!(c.library_link_root(Format::Flac).unwrap(), "~/lib/flac");
    assert!(c.library_link_root(Format::Opus).is_none());
    let c = config(Some(flac(Some(true), None, Some(true), Some(""))), None);
    assert!(c.library_link_root(Format::Flac).is_none());
}

#[test]
fn migration_dirs_list() {
    let c = config(Some(flac(None, None, None, Some("/lib/flac"))), Some(opus(None, None, None, Some("/lib/opus"))));
    assert_eq!(c.migration_dirs(Some("/cwd".to_string())), vec!["/cwd", "/lib/flac", "/lib/opus"]);
    let c = config(None, Some(opus(None, None, None, None)));
    assert_eq!(c.migration_dirs(None), Vec::<String>::new());
}

#[test]
fn format_names() {
    assert_eq!(Format::Flac.name(), "flac");
    assert_eq!(Format::Opus.name(), "opus");
}
