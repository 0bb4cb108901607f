use muet::manifest_data::{
    apply_local_metadata, apply_remote_metadata, base_album_data, base_film_data, finish_album_data, package_name_of,
    remote_metadata_ok, torrent_track_paths, year_of,
};
use muet::hash::PLACEHOLDER_HASH;
use muet::json::{decimal_text, metadata_json_of_toml, path_of, sanitize_quotes, set_path, Json};

fn s(v: &str) -> Json {
    Json::Str(v.to_string())
}

fn n(v: &str) -> Json {
    Json::Number(v.to_string())
}

fn obj(entries: Vec<(&str, Json)>) -> Json {
    Json::Object(entries.into_iter().map(|(k, v)| (k.to_string(), v)).collect())
}

fn at<'a>(v: &'a Json, path: &[&str]) -> Option<&'a Json> {
    let mut cur = v;
    for k in path {
        cur = cur.get(k)?;
    }
    Some(cur)
}

fn text(v: &Json, path: &[&str]) -> Option<String> {
    match at(v, path) {
        Some(Json::Str(t)) => Some(t.clone()),
        _ => None,
    }
}

fn number(v: &Json, path: &[&str]) -> Option<String> {
    match at(v, path) {
        Some(Json::Number(t)) => Some(t.clone()),
        _ => None,
    }
}

fn array_len(v: &Json, path: &[&str]) -> Option<usize> {
    match at(v, path) {
        Some(Json::Array(a)) => Some(a.len()),
        _ => None,
    }
}

fn base() -> Json {
    base_album_data("sha256-origin", "album.torrent", "Some Album", "sha256-torrent", "cover.png", "sha256-cover")
}

#[test]
fn base_data_has_every_field() {
    let d = base();
    assert_eq!(text(&d, &["name"]), Some(String::new()));
    assert_eq!(text(&d, &["origin", "hash"]), Some("sha256-origin".to_string()));
    assert_eq!(text(&d, &["source", "type"]), Some("torrent".to_string()));
    assert_eq!(text(&d, &["source", "torrent", "file"]), Some("album.torrent".to_string()));
    assert_eq!(text(&d, &["source", "torrent", "name"]), Some("Some Album".to_string()));
    assert_eq!(text(&d, &["source", "torrent", "hash"]), Some("sha256-torrent".to_string()));
    assert_eq!(text(&d, &["source", "web", "url"]), Some(String::new()));
    assert_eq!(text(&d, &["source", "web", "hash"]), Some(PLACEHOLDER_HASH.to_string()));
    assert_eq!(text(&d, &["cover", "file"]), Some("cover.png".to_string()));
    assert_eq!(number(&d, &["album", "info", "total_discs"]), Some("1".to_string()));
    assert_eq!(array_len(&d, &["tracks"]), Some(0));
}

#[test]
fn local_metadata_sorts_identifiers_and_counts_discs() {
    let mut d = base();
    let meta = obj(vec![
        ("album", obj(vec![("album", s("Blue")), ("musicbrainz_albumid", s("abc"))])),
        (
            "tracks",
            Json::Array(vec![
                obj(vec![("title", s("One")), ("discnumber", n("2"))]),
                obj(vec![("title", s("Two")), ("discnumber", n("3")), ("musicbrainz_trackid", s("t2"))]),
                obj(vec![("title", s("Three")), ("discnumber", n("1.5"))]),
            ]),
        ),
    ]);
    apply_local_metadata(&mut d, &meta);
    assert_eq!(text(&d, &["album", "metadata", "album"]), Some("Blue".to_string()));
    assert_eq!(text(&d, &["album", "mbid", "musicbrainz_albumid"]), Some("abc".to_string()));
    assert_eq!(text(&d, &["album", "metadata", "musicbrainz_albumid"]), None);
    assert_eq!(number(&d, &["album", "info", "total_discs"]), Some("3".to_string()));
    assert_eq!(array_len(&d, &["tracks"]), Some(3));
    match at(&d, &["tracks"]) {
        Some(Json::Array(ts)) => {
            assert_eq!(text(&ts[0], &["metadata", "title"]), Some("One".to_string()));
            assert_eq!(text(&ts[1], &["mbid", "musicbrainz_trackid"]), Some("t2".to_string()));
            assert_eq!(number(&ts[2], &["metadata", "discnumber"]), Some("1.5".to_string()));
        },
        _ => panic!("tracks are no array"),
    }
}

#[test]
fn local_metadata_without_tracks_keeps_one_disc() {
    let mut d = base();
    let meta = obj(vec![("album", obj(vec![("albumartist", s("Someone"))]))]);
    apply_local_metadata(&mut d, &meta);
    assert_eq!(text(&d, &["album", "metadata", "albumartist"]), Some("Someone".to_string()));
    assert_eq!(number(&d, &["album", "info", "total_discs"]), Some("1".to_string()));
    assert_eq!(array_len(&d, &["tracks"]), Some(0));
}

fn remote_reply() -> Json {
    obj(vec![
        (
            "release_group",
            obj(vec![
                ("id", s("rg-1")),
                ("title", s("The Album")),
                ("first-release-date", s("1999-05-01")),
                (
                    "artist-credit",
                    Json::Array(vec![obj(vec![("name", s("The Band")), ("artist", obj(vec![("id", s("ar-1"))]))])]),
                ),
            ]),
        ),
        (
            "release",
            obj(vec![
                ("id", s("rel-1")),
                ("country", s("GB")),
                (
                    "label-info",
                    Json::Array(vec![obj(vec![
                        ("label", obj(vec![("name", s("Label"))])),
                        ("catalog-number", s("CAT 1")),
                    ])]),
                ),
                (
                    "media",
                    Json::Array(vec![
                        obj(vec![(
                            "tracks",
                            Json::Array(vec![
                                obj(vec![("id", s("t1")), ("title", s("First")), ("recording", obj(vec![("id", s("r1"))]))]),
                                obj(vec![("id", s("t2"))]),
                            ]),
                        )]),
                        obj(vec![("tracks", Json::Array(vec![obj(vec![("title", s("Third"))])]))]),
                    ]),
                ),
            ]),
        ),
        (
            "discogs",
            obj(vec![
                ("urls", obj(vec![("release", s("https://discogs/r")), ("master", s("https://discogs/m"))])),
                ("release", obj(vec![("genres", Json::Array(vec![s("Rock")]))])),
            ]),
        ),
    ])
}

#[test]
fn remote_metadata_fills_album_and_tracks() {
    let mut d = base();
    let remote = remote_reply();
    assert!(remote_metadata_ok(&remote));
    apply_remote_metadata(&mut d, &remote);
    assert_eq!(text(&d, &["album", "metadata", "albumartist"]), Some("The Band".to_string()));
    assert_eq!(text(&d, &["album", "metadata", "album"]), Some("The Album".to_string()));
    assert_eq!(text(&d, &["album", "metadata", "original_date"]), Some("1999-05-01".to_string()));
    assert_eq!(text(&d, &["album", "metadata", "date"]), Some("1999".to_string()));
    assert_eq!(text(&d, &["album", "mbid", "musicbrainz_releasegroupid"]), Some("rg-1".to_string()));
    assert_eq!(text(&d, &["album", "mbid", "musicbrainz_albumartistid"]), Some("ar-1".to_string()));
    assert_eq!(text(&d, &["album", "mbid", "musicbrainz_albumid"]), Some("rel-1".to_string()));
    assert_eq!(
        text(&d, &["album", "url", "musicbrainz_release_group"]),
        Some("https://musicbrainz.org/release-group/rg-1".to_string())
    );
    assert_eq!(text(&d, &["album", "url", "musicbrainz_artist"]), Some("https://musicbrainz.org/artist/ar-1".to_string()));
    assert_eq!(text(&d, &["album", "url", "musicbrainz_release"]), Some("https://musicbrainz.org/release/rel-1".to_string()));
    assert_eq!(text(&d, &["album", "url", "discogs_release"]), Some("https://discogs/r".to_string()));
    assert_eq!(text(&d, &["album", "url", "discogs_master"]), Some("https://discogs/m".to_string()));
    assert_eq!(array_len(&d, &["album", "metadata", "genre"]), Some(1));
    assert_eq!(text(&d, &["album", "metadata", "country"]), Some("GB".to_string()));
    assert_eq!(text(&d, &["album", "metadata", "label"]), Some("Label".to_string()));
    assert_eq!(text(&d, &["album", "metadata", "catalognumber"]), Some("CAT 1".to_string()));
    assert_eq!(number(&d, &["album", "info", "total_discs"]), Some("2".to_string()));
    match at(&d, &["tracks"]) {
        Some(Json::Array(ts)) => {
            assert_eq!(ts.len(), 3);
            assert_eq!(number(&ts[0], &["metadata", "tracknumber"]), Some("1".to_string()));
            assert_eq!(number(&ts[0], &["metadata", "discnumber"]), Some("1".to_string()));
            assert_eq!(text(&ts[0], &["metadata", "title"]), Some("First".to_string()));
            assert_eq!(text(&ts[0], &["metadata", "artist"]), Some("The Band".to_string()));
            assert_eq!(text(&ts[0], &["mbid", "musicbrainz_trackid"]), Some("r1".to_string()));
            assert_eq!(text(&ts[0], &["mbid", "musicbrainz_artistid"]), Some("ar-1".to_string()));
            assert_eq!(text(&ts[1], &["metadata", "title"]), Some("Untitled".to_string()));
            assert_eq!(number(&ts[1], &["metadata", "tracknumber"]), Some("2".to_string()));
            assert!(matches!(at(&ts[1], &["mbid", "musicbrainz_trackid"]), Some(Json::Null)));
            assert_eq!(number(&ts[2], &["metadata", "tracknumber"]), Some("1".to_string()));
            assert_eq!(number(&ts[2], &["metadata", "discnumber"]), Some("2".to_string()));
        },
        _ => panic!("tracks are no array"),
    }
}

#[test]
fn remote_metadata_defaults_without_credit_or_release() {
    let mut d = base();
    let remote = obj(vec![("release_group", obj(vec![("first-release-date", s("98"))]))]);
    assert!(remote_metadata_ok(&remote));
    apply_remote_metadata(&mut d, &remote);
    assert_eq!(text(&d, &["album", "metadata", "albumartist"]), Some("Unknown Artist".to_string()));
    assert_eq!(text(&d, &["album", "metadata", "album"]), Some("Unknown Album".to_string()));
    assert_eq!(text(&d, &["album", "metadata", "date"]), Some("98".to_string()));
    assert!(matches!(at(&d, &["album", "mbid", "musicbrainz_releasegroupid"]), Some(Json::Null)));
    assert_eq!(text(&d, &["album", "url", "musicbrainz_artist"]), None);
    assert_eq!(array_len(&d, &["tracks"]), Some(0));
    assert_eq!(number(&d, &["album", "info", "total_discs"]), Some("1".to_string()));
}

#[test]
fn remote_metadata_needs_a_release_group() {
    assert!(!remote_metadata_ok(&obj(vec![("release", obj(vec![]))])));
    assert!(!remote_metadata_ok(&s("x")));
}

#[test]
fn year_cut_counts_bytes() {
    assert_eq!(year_of("1999-01-01"), Some("1999".to_string()));
    assert_eq!(year_of("abc"), Some("abc".to_string()));
    assert_eq!(year_of("a\u{e9}12"), Some("a\u{e9}1".to_string()));
    assert_eq!(year_of("\u{e9}\u{20ac}x"), None);
    assert_eq!(year_of(""), Some(String::new()));
}

#[test]
fn decimal_text_of_integers() {
    assert_eq!(decimal_text(0), "0");
    assert_eq!(decimal_text(7), "7");
    assert_eq!(decimal_text(1234), "1234");
    assert_eq!(decimal_text(u64::MAX), "18446744073709551615");
}

#[test]
fn numbers_read_as_u64() {
    assert_eq!(n("12").as_u64(), Some(12));
    assert_eq!(n("18446744073709551615").as_u64(), Some(u64::MAX));
    assert_eq!(n("18446744073709551616").as_u64(), None);
    assert_eq!(n("1.5").as_u64(), None);
    assert_eq!(n("-3").as_u64(), None);
    assert_eq!(s("3").as_u64(), None);
}

#[test]
fn quotes_are_straightened_in_values_only() {
    let mut v = obj(vec![
        ("it\u{2019}s", s("don\u{2019}t")),
        ("list", Json::Array(vec![s("a\u{2019}b"), n("1")])),
    ]);
    sanitize_quotes(&mut v);
    match &v {
        Json::Object(es) => {
            assert_eq!(es[0].0, "it\u{2019}s");
            assert!(matches!(&es[0].1, Json::Str(t) if t == "don't"));
            match &es[1].1 {
                Json::Array(a) => assert!(matches!(&a[0], Json::Str(t) if t == "a'b")),
                _ => panic!("list is no array"),
            }
        },
        _ => panic!("not an object"),
    }
    let before = format!("{:?}", text(&v, &["it\u{2019}s"]));
    sanitize_quotes(&mut v);
    assert_eq!(format!("{:?}", text(&v, &["it\u{2019}s"])), before);
}

#[test]
fn set_path_creates_objects_along_the_way() {
    let mut v = Json::Null;
    set_path(&mut v, &path_of(&["a", "b", "c"]), s("x"));
    assert_eq!(text(&v, &["a", "b", "c"]), Some("x".to_string()));
    set_path(&mut v, &path_of(&["a", "b", "c"]), s("y"));
    assert_eq!(text(&v, &["a", "b", "c"]), Some("y".to_string()));
    match at(&v, &["a", "b"]) {
        Some(Json::Object(es)) => assert_eq!(es.len(), 1),
        _ => panic!("not an object"),
    }
}

#[test]
fn package_names_join_artist_and_title() {
    assert_eq!(package_name_of("The Band", "Blue Sky!"), "the-band-blue-sky");
    assert_eq!(package_name_of("", "Blue  Sky"), "blue-sky");
    assert_eq!(package_name_of("--A--", "--"), "a");
}

#[test]
fn finished_data_has_name_link_and_files() {
    let mut d = base();
    let meta = obj(vec![
        ("album", obj(vec![("album", s("Don\u{2019}t Stop")), ("albumartist", s("The Band"))])),
        ("tracks", Json::Array(vec![obj(vec![("title", s("One"))])])),
    ]);
    apply_local_metadata(&mut d, &meta);
    let paths = vec!["01 one.flac".to_string(), "02 two.flac".to_string()];
    finish_album_data(&mut d, "Torrent Dir", true, &paths, Some("abc-"));
    assert_eq!(text(&d, &["name"]), Some("the-band-don-t-stop".to_string()));
    assert_eq!(text(&d, &["album", "url", "ctdbtocid"]), Some("https://db.cuetools.net/ui/?tocid=abc-".to_string()));
    assert_eq!(text(&d, &["album", "metadata", "album"]), Some("Don't Stop".to_string()));
    match at(&d, &["tracks"]) {
        Some(Json::Array(ts)) => {
            assert_eq!(ts.len(), 2);
            assert_eq!(text(&ts[0], &["file"]), Some("Torrent Dir/01 one.flac".to_string()));
            assert_eq!(text(&ts[0], &["metadata", "title"]), Some("One".to_string()));
            assert_eq!(text(&ts[1], &["file"]), Some("Torrent Dir/02 two.flac".to_string()));
        },
        _ => panic!("tracks are no array"),
    }
}

#[test]
fn finished_data_without_metadata_uses_torrent_name() {
    let mut d = base();
    let meta = obj(vec![("tracks", Json::Array(vec![obj(vec![]), obj(vec![]), obj(vec![])]))]);
    apply_local_metadata(&mut d, &meta);
    let paths = vec!["single.flac".to_string()];
    finish_album_data(&mut d, "My Torrent", false, &paths, None);
    assert_eq!(text(&d, &["name"]), Some("my-torrent".to_string()));
    assert_eq!(text(&d, &["album", "url", "ctdbtocid"]), Some(String::new()));
    match at(&d, &["tracks"]) {
        Some(Json::Array(ts)) => {
            assert_eq!(ts.len(), 3);
            assert_eq!(text(&ts[0], &["file"]), Some("single.flac".to_string()));
            assert_eq!(text(&ts[1], &["file"]), Some(String::new()));
        },
        _ => panic!("tracks are no array"),
    }
}

#[test]
fn torrent_tracks_filtered_and_sorted() {
    let files = vec![
        "CD1/10 ten.flac".to_string(),
        "CD1/2 two.flac".to_string(),
        "cover.jpg".to_string(),
        "CD1/1 one.flac".to_string(),
    ];
    let r = torrent_track_paths(&files, "flac").ok().unwrap();
    assert_eq!(r, vec!["CD1/1 one.flac".to_string(), "CD1/2 two.flac".to_string(), "CD1/10 ten.flac".to_string()]);
    assert!(torrent_track_paths(&files, "[").is_err());
}

#[test]
fn film_data_has_every_field() {
    let d = base_film_data("sha256-o", "film.torrent", "sha256-t", "poster.jpg", "sha256-p", "Film/film.mkv");
    assert_eq!(text(&d, &["name"]), Some(String::new()));
    assert_eq!(text(&d, &["origin", "hash"]), Some("sha256-o".to_string()));
    assert_eq!(text(&d, &["source", "type"]), Some("torrent".to_string()));
    assert_eq!(text(&d, &["source", "torrent", "file"]), Some("film.torrent".to_string()));
    assert_eq!(text(&d, &["source", "torrent", "hash"]), Some("sha256-t".to_string()));
    assert_eq!(text(&d, &["source", "torrent", "name"]), None);
    assert_eq!(text(&d, &["source", "web", "hash"]), Some(PLACEHOLDER_HASH.to_string()));
    assert_eq!(text(&d, &["poster", "file"]), Some("poster.jpg".to_string()));
    assert_eq!(text(&d, &["poster", "hash"]), Some("sha256-p".to_string()));
    assert_eq!(text(&d, &["film", "metadata", "title"]), Some(String::new()));
    assert_eq!(text(&d, &["film", "urls", "letterboxd"]), Some(String::new()));
    assert_eq!(text(&d, &["film", "video"]), Some("Film/film.mkv".to_string()));
}

#[test]
fn set_path_leaves_other_paths() {
    let mut v = Json::Null;
    set_path(&mut v, &path_of(&["a", "b", "c"]), s("x"));
    set_path(&mut v, &path_of(&["a", "b", "d"]), s("y"));
    set_path(&mut v, &path_of(&["a", "e", "c"]), s("z"));
    assert_eq!(text(&v, &["a", "b", "c"]), Some("x".to_string()));
    assert_eq!(text(&v, &["a", "b", "d"]), Some("y".to_string()));
    assert_eq!(text(&v, &["a", "e", "c"]), Some("z".to_string()));
}

#[test]
fn metadata_text_read_as_json() {
    let meta = metadata_json_of_toml("[album]\nalbum = \"X\"\ndate = 1999\n\n[[tracks]]\ntitle = \"a\"\n").unwrap();
    assert_eq!(text(&meta, &["album", "album"]), Some("X".to_string()));
    assert_eq!(number(&meta, &["album", "date"]), Some("1999".to_string()));
    match at(&meta, &["tracks"]) {
        Some(Json::Array(ts)) => {
            assert_eq!(ts.len(), 1);
            assert_eq!(text(&ts[0], &["title"]), Some("a".to_string()));
        }
        _ => panic!("tracks is not an array"),
    }
    assert!(metadata_json_of_toml("[album\n").is_none());
}
