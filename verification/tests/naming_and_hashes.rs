use muet::hash::{check_hash, HashError, PLACEHOLDER_HASH};
use muet::names::{get_nix32_truncate, sanitize_source_name, source_link_name};

#[test]
fn check_hash_accepts_equal_hashes() {
    assert!(check_hash("sha256-abc", "sha256-abc", "cover.hash").is_ok());
}

#[test]
fn check_hash_rejects_empty_declared_hash() {
    match check_hash("sha256-abc", "", "cover.hash") {
        Err(HashError::Missing { name, actual }) => {
            assert_eq!(name, "cover.hash");
            assert_eq!(actual, "sha256-abc");
        }
        _ => panic!("expected a missing hash"),
    }
}

#[test]
fn check_hash_rejects_placeholder() {
    let e = check_hash("sha256-abc", PLACEHOLDER_HASH, "origin.hash").err().unwrap();
    assert_eq!(
        e.message(),
        "origin.hash hash is missing or uses a placeholder.\nActual hash: sha256-abc"
    );
}

#[test]
fn check_hash_reports_mismatch() {
    let e = check_hash("sha256-abc", "sha256-def", "source.torrent.hash").err().unwrap();
    assert_eq!(
        e.message(),
        "source.torrent.hash hash mismatch.\nExpected: sha256-def\nActual:   sha256-abc"
    );
}

#[test]
fn placeholder_hash_value() {
    assert_eq!(PLACEHOLDER_HASH, "sha256-AAAAAAAAAAAAAAAAAAAAAAAAAAAAAAAAAAAAAAAAAAA=");
}

#[test]
fn sanitize_collapses_runs_and_trims_dashes() {
    assert_eq!(sanitize_source_name("Hello, World!!"), "hello-world");
    assert_eq!(sanitize_source_name("--A__b--"), "a-b");
    assert_eq!(sanitize_source_name("Pink Floyd - The Wall (1979) [FLAC]"), "pink-floyd-the-wall-1979-flac");
}

#[test]
fn sanitize_keeps_unicode_letters() {
    assert_eq!(sanitize_source_name("Café Déjà Vu"), "café-déjà-vu");
}

#[test]
fn sanitize_of_nothing_alphanumeric_is_empty() {
    assert_eq!(sanitize_source_name(" - / - "), "");
    assert_eq!(sanitize_source_name(""), "");
}

#[test]
fn sanitized_names_have_clean_dashes() {
    for s in ["a--b", "-x-", "A B  C", "..a..b..", "ÄÖÜ äöü"] {
        let r = sanitize_source_name(s);
        assert!(!r.starts_with('-') && !r.ends_with('-') && !r.contains("--"), "{r}");
    }
}

#[test]
fn nix32_truncate_without_hash() {
    assert_eq!(get_nix32_truncate("", None), "nohash");
    assert_eq!(get_nix32_truncate("", Some("abc")), "nohash");
}

#[test]
fn nix32_truncate_uses_converted_output() {
    let out = "  0123456789abcdfghijklmnpqrsvwxyz0123\n";
    assert_eq!(get_nix32_truncate("sha256-x", Some(out)), "0123456789abcdfghijklmnpqrsvwxyz");
    assert_eq!(get_nix32_truncate("sha256-x", Some("abc\n")), "abc");
}

#[test]
fn nix32_truncate_fallback() {
    assert_eq!(get_nix32_truncate("sha256-ab/c+d=", None), "ab_c-d=");
    assert_eq!(get_nix32_truncate("sha256-sha256-xy", None), "xy");
    let long = "sha256-ABCDEFGHIJKLMNOPQRSTUVWXYZ0123456789+/abcdef=";
    let r = get_nix32_truncate(long, None);
    assert_eq!(r, "ABCDEFGHIJKLMNOPQRSTUVWXYZ012345");
    assert_eq!(r.chars().count(), 32);
}

#[test]
fn link_name_joins_with_dash() {
    assert_eq!(source_link_name("pink-floyd", "abc123"), "pink-floyd-abc123");
}
