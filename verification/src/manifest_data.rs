//! The data of new album and film manifests as JSON values: their first form,
//! the metadata merged into an album's from a local file or from MusicBrainz
//! and Discogs, and the album's final name, links and track list.
use vstd::prelude::*;
use crate::json::{
    Json, JsonV, jget, jset, jchild, jset_path, settable, indexable, set_path, lemma_jget_jset,
    entries_model, elements_model, lemma_model_parts, as_u64, decimal, number_of, jat, jstr, jfirst,
    or_null, opt_model, at, str_of, first_of, cloned_or_null, jget_path, lemma_set_path_get, lemma_set_path_other,
    lemma_entry_at,
};
use crate::text::{to_string, views_str, chars_of, contains_seq, occurs_in, str_equal, string_of, append_str};
use crate::names::{dashed, dashed_vec, lowercase, dash_clean, lemma_dashed_clean};
use crate::json::{quotes_fixed, sanitize_quotes, no_curly_quote, lemma_quotes_fixed};
use crate::glob::{build_globset, is_match, glob_patterns, all_valid, globset_build_ok, globset_globs, GlobError};
use crate::ctdb::patterns_match;
use crate::order::sort_paths;
use crate::hash::PLACEHOLDER_HASH;

verus! {

/// The path `album.<section>.<key>`.
pub open spec fn album_path(section: Seq<char>, key: Seq<char>) -> Seq<Seq<char>> {
    seq!["album"@, section, key]
}

/// The parts of `album` that metadata is written to.
pub open spec fn album_section(t: Seq<char>) -> bool {
    t == "metadata"@ || t == "mbid"@ || t == "url"@ || t == "info"@
}

/// The data can take keys, and so can `album` and its parts (each an object,
/// or missing or null, which the first write makes an object).
pub open spec fn album_shaped(d: JsonV) -> bool {
    let a = jchild(d, "album"@);
    &&& indexable(d)
    &&& indexable(a)
    &&& indexable(jchild(a, "metadata"@))
    &&& indexable(jchild(a, "mbid"@))
    &&& indexable(jchild(a, "url"@))
    &&& indexable(jchild(a, "info"@))
}

/// Writing at a path of two keys writes the second key in the first key's
/// child.
pub proof fn lemma_set_two(v: JsonV, a: Seq<char>, b: Seq<char>, val: JsonV)
    requires
        indexable(v),
        indexable(jchild(v, a)),
    ensures
        settable(v, seq![a, b]),
        jset_path(v, seq![a, b], val) == jset(v, a, jset(jchild(v, a), b, val)),
{
    let p = seq![a, b];
    let q = seq![b];
    let e = Seq::<Seq<char>>::empty();
    assert(p[0] == a);
    assert(q[0] == b);
    assert(p.subrange(1, p.len() as int) =~= q);
    assert(q.subrange(1, q.len() as int) =~= e);
    let c = jchild(v, a);
    assert(settable(jchild(c, b), e));
    assert(settable(c, q));
    assert(settable(v, p));
    assert(jset_path(jchild(c, b), e, val) == val);
    assert(jset_path(c, q, val) == jset(c, b, val));
    assert(jset_path(v, p, val) == jset(v, a, jset(c, b, val)));
}

/// Writing at `album.<section>.<key>` keeps the data album-shaped.
pub proof fn lemma_album_set(d: JsonV, section: Seq<char>, key: Seq<char>, val: JsonV)
    requires
        album_shaped(d),
        album_section(section),
    ensures
        settable(d, album_path(section, key)),
        album_shaped(jset_path(d, album_path(section, key), val)),
        jset_path(d, album_path(section, key), val) == jset(
            d,
            "album"@,
            jset(jchild(d, "album"@), section, jset(jchild(jchild(d, "album"@), section), key, val)),
        ),
{
    let a = jchild(d, "album"@);
    let p = album_path(section, key);
    assert(p.subrange(1, 3) =~= seq![section, key]);
    lemma_set_two(a, section, key, val);
    let a2 = jset(a, section, jset(jchild(a, section), key, val));
    lemma_jget_jset(jchild(a, section), key, val, key);
    let r = jset(d, "album"@, a2);
    lemma_jget_jset(d, "album"@, a2, "album"@);
    lemma_jget_jset(a, section, jset(jchild(a, section), key, val), "metadata"@);
    lemma_jget_jset(a, section, jset(jchild(a, section), key, val), "mbid"@);
    lemma_jget_jset(a, section, jset(jchild(a, section), key, val), "url"@);
    lemma_jget_jset(a, section, jset(jchild(a, section), key, val), "info"@);
}

/// Writing a top-level key other than `album` keeps the data album-shaped.
pub proof fn lemma_top_set(d: JsonV, key: Seq<char>, val: JsonV)
    requires
        album_shaped(d),
        key != "album"@,
    ensures
        album_shaped(jset(d, key, val)),
        jchild(jset(d, key, val), "album"@) == jchild(d, "album"@),
{
    lemma_jget_jset(d, key, val, "album"@);
}

/// `data.album.<section>.<key> = val`.
fn set_album_field(data: &mut Json, section: &str, key: &str, val: Json)
    requires
        album_shaped(old(data).model()),
        album_section(section@),
    ensures
        final(data).model() == jset_path(old(data).model(), album_path(section@, key@), val.model()),
        album_shaped(final(data).model()),
{
    proof { lemma_album_set(data.model(), section@, key@, val.model()); }
    let mut keys: Vec<String> = Vec::new();
    keys.push(to_string("album"));
    keys.push(to_string(section));
    keys.push(to_string(key));
    assert(views_str(keys@) =~= album_path(section@, key@));
    set_path(data, &keys, val);
}

/// A string value.
pub fn str_value(s: &str) -> (r: Json)
    ensures
        r.model() == JsonV::Str(s@),
{
    Json::Str(to_string(s))
}

/// An object value with the given entries.
pub fn object_value(es: Vec<(String, Json)>) -> (r: Json)
    ensures
        r.model() == JsonV::Object(entries_model(es@)),
{
    let r = Json::Object(es);
    proof { lemma_model_parts(r); }
    r
}

/// An entry of an object.
pub fn entry(key: &str, val: Json) -> (r: (String, Json))
    ensures
        r.0@ == key@,
        r.1 == val,
{
    (to_string(key), val)
}

/// The empty object.
pub open spec fn empty_object() -> JsonV {
    JsonV::Object(Seq::empty())
}

/// A new empty object.
pub fn empty_object_value() -> (r: Json)
    ensures
        r.model() == empty_object(),
{
    let es: Vec<(String, Json)> = Vec::new();
    let r = object_value(es);
    assert(entries_model(es@) =~= Seq::<(Seq<char>, JsonV)>::empty());
    r
}

/// The data of a new manifest before any metadata: an empty name, the origin
/// hash, the torrent source (with an empty web source beside it), the cover,
/// an album of one disc with empty metadata, identifiers and links, and no
/// tracks.
pub open spec fn base_data(
    origin_hash: Seq<char>,
    torrent_file: Seq<char>,
    torrent_name: Seq<char>,
    torrent_hash: Seq<char>,
    cover_file: Seq<char>,
    cover_hash: Seq<char>,
) -> JsonV {
    JsonV::Object(
        seq![
            ("name"@, JsonV::Str(""@)),
            ("origin"@, JsonV::Object(seq![("hash"@, JsonV::Str(origin_hash))])),
            (
                "source"@,
                JsonV::Object(
                    seq![
                        ("type"@, JsonV::Str("torrent"@)),
                        (
                            "torrent"@,
                            JsonV::Object(
                                seq![
                                    ("file"@, JsonV::Str(torrent_file)),
                                    ("name"@, JsonV::Str(torrent_name)),
                                    ("hash"@, JsonV::Str(torrent_hash)),
                                ],
                            ),
                        ),
                        (
                            "web"@,
                            JsonV::Object(seq![("url"@, JsonV::Str(""@)), ("hash"@, JsonV::Str(PLACEHOLDER_HASH@))]),
                        ),
                    ],
                ),
            ),
            ("cover"@, JsonV::Object(seq![("file"@, JsonV::Str(cover_file)), ("hash"@, JsonV::Str(cover_hash))])),
            (
                "album"@,
                JsonV::Object(
                    seq![
                        ("info"@, JsonV::Object(seq![("total_discs"@, JsonV::Number(seq!['1']))])),
                        ("metadata"@, empty_object()),
                        ("mbid"@, empty_object()),
                        ("url"@, empty_object()),
                    ],
                ),
            ),
            ("tracks"@, JsonV::Array(Seq::empty())),
        ],
    )
}

/// The first data is album-shaped.
proof fn lemma_base_shaped(
    origin_hash: Seq<char>,
    torrent_file: Seq<char>,
    torrent_name: Seq<char>,
    torrent_hash: Seq<char>,
    cover_file: Seq<char>,
    cover_hash: Seq<char>,
)
    ensures
        album_shaped(base_data(origin_hash, torrent_file, torrent_name, torrent_hash, cover_file, cover_hash)),
{
    reveal_strlit("album");
    reveal_strlit("name");
    reveal_strlit("origin");
    reveal_strlit("source");
    reveal_strlit("cover");
    reveal_strlit("tracks");
    reveal_strlit("info");
    reveal_strlit("metadata");
    reveal_strlit("mbid");
    reveal_strlit("url");
    let d = base_data(origin_hash, torrent_file, torrent_name, torrent_hash, cover_file, cover_hash);
    if let JsonV::Object(es) = d {
        assert("name"@.len() != "album"@.len());
        assert("origin"@.len() != "album"@.len());
        assert("source"@.len() != "album"@.len());
        assert("cover"@[0] != "album"@[0]);
        assert(forall|k: int| 0 <= k < 4 ==> (#[trigger] es[k]).0 != "album"@);
        crate::json::lemma_entry_at(es, "album"@, 4);
        let a = jchild(d, "album"@);
        if let JsonV::Object(aes) = a {
            crate::json::lemma_entry_index(aes, "metadata"@);
            crate::json::lemma_entry_index(aes, "mbid"@);
            crate::json::lemma_entry_index(aes, "url"@);
            crate::json::lemma_entry_index(aes, "info"@);
        }
    }
}

/// An object of two entries.
fn object2(a: (String, Json), b: (String, Json)) -> (r: Json)
    ensures
        r.model() == JsonV::Object(seq![(a.0@, a.1.model()), (b.0@, b.1.model())]),
{
    let es = vec![a, b];
    let r = object_value(es);
    assert(entries_model(es@) =~= seq![(a.0@, a.1.model()), (b.0@, b.1.model())]);
    r
}

/// An object of three entries.
fn object3(a: (String, Json), b: (String, Json), c: (String, Json)) -> (r: Json)
    ensures
        r.model() == JsonV::Object(seq![(a.0@, a.1.model()), (b.0@, b.1.model()), (c.0@, c.1.model())]),
{
    let es = vec![a, b, c];
    let r = object_value(es);
    assert(entries_model(es@) =~= seq![(a.0@, a.1.model()), (b.0@, b.1.model()), (c.0@, c.1.model())]);
    r
}

/// An object of four entries.
fn object4(a: (String, Json), b: (String, Json), c: (String, Json), d: (String, Json)) -> (r: Json)
    ensures
        r.model() == JsonV::Object(
            seq![(a.0@, a.1.model()), (b.0@, b.1.model()), (c.0@, c.1.model()), (d.0@, d.1.model())],
        ),
{
    let es = vec![a, b, c, d];
    let r = object_value(es);
    assert(entries_model(es@) =~= seq![
        (a.0@, a.1.model()),
        (b.0@, b.1.model()),
        (c.0@, c.1.model()),
        (d.0@, d.1.model()),
    ]);
    r
}

/// The data of a new manifest before any metadata.
pub fn base_album_data(
    origin_hash: &str,
    torrent_file: &str,
    torrent_name: &str,
    torrent_hash: &str,
    cover_file: &str,
    cover_hash: &str,
) -> (r: Json)
    ensures
        r.model() == base_data(origin_hash@, torrent_file@, torrent_name@, torrent_hash@, cover_file@, cover_hash@),
        album_shaped(r.model()),
        tracks_indexable(r.model()),
{
    let origin_es = vec![entry("hash", str_value(origin_hash))];
    assert(entries_model(origin_es@) =~= seq![("hash"@, JsonV::Str(origin_hash@))]);
    let origin = object_value(origin_es);
    let torrent = object3(
        entry("file", str_value(torrent_file)),
        entry("name", str_value(torrent_name)),
        entry("hash", str_value(torrent_hash)),
    );
    let web = object2(entry("url", str_value("")), entry("hash", str_value(PLACEHOLDER_HASH)));
    let source = object3(entry("type", str_value("torrent")), entry("torrent", torrent), entry("web", web));
    let cover = object2(entry("file", str_value(cover_file)), entry("hash", str_value(cover_hash)));
    let one = Json::Number(to_string("1"));
    let info_es = vec![entry("total_discs", one)];
    assert(entries_model(info_es@) =~= seq![("total_discs"@, one.model())]);
    let info = object_value(info_es);
    let album = object4(
        entry("info", info),
        entry("metadata", empty_object_value()),
        entry("mbid", empty_object_value()),
        entry("url", empty_object_value()),
    );
    let tracks: Vec<Json> = Vec::new();
    let tracks_value = Json::Array(tracks);
    let es = vec![
        entry("name", str_value("")),
        entry("origin", origin),
        entry("source", source),
        entry("cover", cover),
        entry("album", album),
        entry("tracks", tracks_value),
    ];
    let r = object_value(es);
    proof {
        reveal_strlit("1");
        reveal_strlit("album");
        reveal_strlit("name");
        reveal_strlit("origin");
        reveal_strlit("source");
        reveal_strlit("cover");
        reveal_strlit("tracks");
        reveal_strlit("info");
        reveal_strlit("metadata");
        reveal_strlit("mbid");
        reveal_strlit("url");
        lemma_model_parts(tracks_value);
        assert(elements_model(tracks@) =~= Seq::<JsonV>::empty());
        assert("1"@ =~= seq!['1']);
        assert(one.model() == JsonV::Number(seq!['1']));
        assert(info.model() == JsonV::Object(seq![("total_discs"@, JsonV::Number(seq!['1']))]));
        assert(album.model() == JsonV::Object(
            seq![
                ("info"@, JsonV::Object(seq![("total_discs"@, JsonV::Number(seq!['1']))])),
                ("metadata"@, empty_object()),
                ("mbid"@, empty_object()),
                ("url"@, empty_object()),
            ],
        ));
        assert(entries_model(es@) =~= seq![
            ("name"@, JsonV::Str(""@)),
            ("origin"@, origin.model()),
            ("source"@, source.model()),
            ("cover"@, cover.model()),
            ("album"@, album.model()),
            ("tracks"@, JsonV::Array(Seq::empty())),
        ]);
        assert(r.model() == base_data(origin_hash@, torrent_file@, torrent_name@, torrent_hash@, cover_file@, cover_hash@));
        lemma_base_shaped(origin_hash@, torrent_file@, torrent_name@, torrent_hash@, cover_file@, cover_hash@);
        if let JsonV::Object(bes) = r.model() {
            crate::json::lemma_entry_index(bes, "tracks"@);
            assert(meta_tracks(r.model()).len() == 0);
        }
    }
    r
}

/// Where a metadata key goes: keys that name MusicBrainz under `mbid`, the
/// others under `metadata`.
pub open spec fn section_for(k: Seq<char>) -> Seq<char> {
    if occurs_in(k, "musicbrainz"@) {
        "mbid"@
    } else {
        "metadata"@
    }
}

fn section_for_key(k: &str) -> (r: &'static str)
    ensures
        r@ == section_for(k@),
{
    let kc = chars_of(k);
    let m = chars_of("musicbrainz");
    if contains_seq(&kc, &m) {
        "mbid"
    } else {
        "metadata"
    }
}

/// The data after each album entry of a metadata file was written under
/// `album`, in the part that `section_for` names.
pub open spec fn with_album_entries(d: JsonV, es: Seq<(Seq<char>, JsonV)>) -> JsonV
    decreases es.len(),
{
    if es.len() == 0 {
        d
    } else {
        jset_path(
            with_album_entries(d, es.drop_last()),
            album_path(section_for(es.last().0), es.last().0),
            es.last().1,
        )
    }
}

/// A track before its metadata: empty `metadata` and `mbid`.
pub open spec fn track_base() -> JsonV {
    JsonV::Object(seq![("metadata"@, empty_object()), ("mbid"@, empty_object())])
}

/// A track value that can take keys, with `metadata` and `mbid` that can too.
pub open spec fn track_shaped(t: JsonV) -> bool {
    &&& indexable(t)
    &&& indexable(jchild(t, "metadata"@))
    &&& indexable(jchild(t, "mbid"@))
}

/// The track after each of its metadata entries was written in the part that
/// `section_for` names.
pub open spec fn with_track_entries(t: JsonV, es: Seq<(Seq<char>, JsonV)>) -> JsonV
    decreases es.len(),
{
    if es.len() == 0 {
        t
    } else {
        jset_path(
            with_track_entries(t, es.drop_last()),
            seq![section_for(es.last().0), es.last().0],
            es.last().1,
        )
    }
}

/// A track of a metadata file as the manifest holds it.
pub open spec fn local_track(t: JsonV) -> JsonV {
    match t {
        JsonV::Object(es) => with_track_entries(track_base(), es),
        _ => track_base(),
    }
}

/// The greatest disc number among the entries, starting from `m`: entries
/// named `discnumber` whose value is a non-negative integer.
pub open spec fn entries_disc_max(m: nat, es: Seq<(Seq<char>, JsonV)>) -> nat
    decreases es.len(),
{
    if es.len() == 0 {
        m
    } else {
        let p = entries_disc_max(m, es.drop_last());
        let e = es.last();
        if e.0 == "discnumber"@ && as_u64(e.1) is Some && as_u64(e.1).unwrap() > p {
            as_u64(e.1).unwrap() as nat
        } else {
            p
        }
    }
}

/// The greatest disc number of the tracks, starting from `m`.
pub open spec fn tracks_disc_max(m: nat, ts: Seq<JsonV>) -> nat
    decreases ts.len(),
{
    if ts.len() == 0 {
        m
    } else {
        let p = tracks_disc_max(m, ts.drop_last());
        match ts.last() {
            JsonV::Object(es) => entries_disc_max(p, es),
            _ => p,
        }
    }
}

/// The data after a metadata file was merged in: the entries of its `album`
/// table under `album`; its `tracks` (when it has them) as the track list;
/// and the greatest disc number of its tracks, at least 1, as the number of
/// discs.
pub open spec fn local_applied(d: JsonV, meta: JsonV) -> JsonV {
    let d1 = match jget(meta, "album"@) {
        Some(JsonV::Object(es)) => with_album_entries(d, es),
        _ => d,
    };
    let d2 = match jget(meta, "tracks"@) {
        Some(JsonV::Array(ts)) => jset(d1, "tracks"@, JsonV::Array(ts.map_values(|t: JsonV| local_track(t)))),
        _ => d1,
    };
    let discs = match jget(meta, "tracks"@) {
        Some(JsonV::Array(ts)) => tracks_disc_max(1, ts),
        _ => 1,
    };
    jset_path(d2, album_path("info"@, "total_discs"@), JsonV::Number(decimal(discs)))
}

/// Writing in the `metadata` or `mbid` part of a track keeps it a track.
pub proof fn lemma_track_set(t: JsonV, section: Seq<char>, key: Seq<char>, val: JsonV)
    requires
        track_shaped(t),
        section == "metadata"@ || section == "mbid"@,
    ensures
        settable(t, seq![section, key]),
        track_shaped(jset_path(t, seq![section, key], val)),
{
    lemma_set_two(t, section, key, val);
    let c = jset(jchild(t, section), key, val);
    lemma_jget_jset(jchild(t, section), key, val, key);
    lemma_jget_jset(t, section, c, "metadata"@);
    lemma_jget_jset(t, section, c, "mbid"@);
}

/// The base of a track is a track.
pub proof fn lemma_track_base()
    ensures
        track_shaped(track_base()),
{
    if let JsonV::Object(es) = track_base() {
        crate::json::lemma_entry_index(es, "metadata"@);
        crate::json::lemma_entry_index(es, "mbid"@);
    }
}

/// A new track base.
fn track_base_value() -> (r: Json)
    ensures
        r.model() == track_base(),
{
    object2(entry("metadata", empty_object_value()), entry("mbid", empty_object_value()))
}

/// `data[key] = val`.
fn set_key(data: &mut Json, key: &str, val: Json)
    requires
        indexable(old(data).model()),
    ensures
        final(data).model() == jset(old(data).model(), key@, val.model()),
{
    let mut cur = Json::Null;
    std::mem::swap(&mut cur, data);
    *data = cur.with_key(key, val);
}

/// Writes each album entry of a metadata file under `album`.
fn apply_album_entries(data: &mut Json, es: &Vec<(String, Json)>)
    requires
        album_shaped(old(data).model()),
    ensures
        final(data).model() == with_album_entries(old(data).model(), entries_model(es@)),
        album_shaped(final(data).model()),
{
    let ghost d0 = data.model();
    let mut i: usize = 0;
    while i < es.len()
        invariant
            i <= es.len(),
            data.model() == with_album_entries(d0, entries_model(es@).subrange(0, i as int)),
            album_shaped(data.model()),
        decreases es.len() - i,
    {
        let k = es[i].0.as_str();
        let section = section_for_key(k);
        let v = es[i].1.deep_clone();
        set_album_field(data, section, k, v);
        proof {
            let t = entries_model(es@).subrange(0, i + 1);
            assert(t.drop_last() =~= entries_model(es@).subrange(0, i as int));
            assert(t.last() == (es@[i as int].0@, es@[i as int].1.model()));
        }
        i = i + 1;
    }
    assert(entries_model(es@).subrange(0, es@.len() as int) =~= entries_model(es@));
}

/// A track of a metadata file as the manifest holds it, and the greatest disc
/// number so far.
fn local_track_of(t: &Json, m: u64) -> (r: (Json, u64))
    ensures
        r.0.model() == local_track(t.model()),
        r.1 == (match t.model() {
            JsonV::Object(es) => entries_disc_max(m as nat, es),
            _ => m as nat,
        }),
{
    let mut out = track_base_value();
    let mut max_disc = m;
    proof { lemma_track_base(); }
    match t.as_object() {
        Some(es) => {
            let mut i: usize = 0;
            while i < es.len()
                invariant
                    i <= es.len(),
                    t.model() == JsonV::Object(entries_model(es@)),
                    out.model() == with_track_entries(track_base(), entries_model(es@).subrange(0, i as int)),
                    track_shaped(out.model()),
                    max_disc == entries_disc_max(m as nat, entries_model(es@).subrange(0, i as int)),
                decreases es.len() - i,
            {
                let k = es[i].0.as_str();
                let ghost pt = entries_model(es@).subrange(0, i + 1);
                proof {
                    assert(pt.drop_last() =~= entries_model(es@).subrange(0, i as int));
                    assert(pt.last() == (es@[i as int].0@, es@[i as int].1.model()));
                }
                if str_equal(k, "discnumber") {
                    match es[i].1.as_u64() {
                        Some(d) => {
                            if d > max_disc {
                                max_disc = d;
                            }
                        },
                        None => {},
                    }
                }
                let section = section_for_key(k);
                let mut keys: Vec<String> = Vec::new();
                keys.push(to_string(section));
                keys.push(to_string(k));
                assert(views_str(keys@) =~= seq![section@, k@]);
                proof { lemma_track_set(out.model(), section@, k@, es@[i as int].1.model()); }
                set_path(&mut out, &keys, es[i].1.deep_clone());
                i = i + 1;
            }
            assert(entries_model(es@).subrange(0, es@.len() as int) =~= entries_model(es@));
        },
        None => {},
    }
    (out, max_disc)
}

/// The tracks of a metadata file as the manifest holds them, and their
/// greatest disc number, at least 1.
fn local_tracks(ts: &Vec<Json>) -> (r: (Vec<Json>, u64))
    ensures
        elements_model(r.0@) == elements_model(ts@).map_values(|t: JsonV| local_track(t)),
        r.1 == tracks_disc_max(1, elements_model(ts@)),
{
    let mut out: Vec<Json> = Vec::new();
    let mut m: u64 = 1;
    let mut i: usize = 0;
    while i < ts.len()
        invariant
            i <= ts.len(),
            out@.len() == i,
            forall|k: int| 0 <= k < i ==> (#[trigger] out@[k]).model() == local_track(ts@[k].model()),
            m == tracks_disc_max(1, elements_model(ts@).subrange(0, i as int)),
        decreases ts.len() - i,
    {
        let (t, m2) = local_track_of(&ts[i], m);
        proof {
            let p = elements_model(ts@).subrange(0, i + 1);
            assert(p.drop_last() =~= elements_model(ts@).subrange(0, i as int));
            assert(p.last() == ts@[i as int].model());
        }
        out.push(t);
        m = m2;
        i = i + 1;
    }
    assert(elements_model(ts@).subrange(0, ts@.len() as int) =~= elements_model(ts@));
    assert(elements_model(out@) =~= elements_model(ts@).map_values(|t: JsonV| local_track(t)));
    (out, m)
}

/// Merges a metadata file (its JSON form) into the data: the entries of its
/// `album` table go under `album`, identifiers (keys that name MusicBrainz)
/// in `mbid` and the rest in `metadata`; its `tracks` become the track list,
/// each track's entries sorted the same way; the number of discs is the
/// greatest disc number of the tracks, at least 1.
pub fn apply_local_metadata(data: &mut Json, meta: &Json)
    requires
        album_shaped(old(data).model()),
    ensures
        final(data).model() == local_applied(old(data).model(), meta.model()),
        album_shaped(final(data).model()),
        tracks_indexable(old(data).model()) ==> tracks_indexable(final(data).model()),
{
    proof {
        if tracks_indexable(data.model()) {
            lemma_local_tracks_indexable(data.model(), meta.model());
        }
    }
    let mut max_disc: u64 = 1;
    match meta.get("album") {
        Some(a) => match a.as_object() {
            Some(es) => apply_album_entries(data, es),
            None => {},
        },
        None => {},
    }
    match meta.get("tracks") {
        Some(t) => match t.as_array() {
            Some(ts) => {
                let (out, m) = local_tracks(ts);
                max_disc = m;
                let v = Json::Array(out);
                proof {
                    lemma_model_parts(v);
                    reveal_strlit("tracks");
                    reveal_strlit("album");
                    assert("tracks"@.len() != "album"@.len());
                    lemma_top_set(data.model(), "tracks"@, v.model());
                }
                set_key(data, "tracks", v);
            },
            None => {},
        },
        None => {},
    }
    set_album_field(data, "info", "total_discs", number_of(max_disc));
}

/// The number of bytes of a character in UTF-8.
pub open spec fn utf8_width(c: char) -> nat {
    if (c as u32) < 0x80 {
        1
    } else if (c as u32) < 0x800 {
        2
    } else if (c as u32) < 0x10000 {
        3
    } else {
        4
    }
}

/// The number of bytes of a string in UTF-8 (`str::len`).
pub open spec fn utf8_len(s: Seq<char>) -> nat
    decreases s.len(),
{
    if s.len() == 0 {
        0
    } else {
        utf8_width(s[0]) + utf8_len(s.drop_first())
    }
}

/// The leading characters that take exactly `n` bytes, when the `n`-th byte
/// ends a character.
pub open spec fn first_bytes(s: Seq<char>, n: int) -> Option<Seq<char>>
    decreases s.len(),
{
    if n == 0 {
        Some(Seq::empty())
    } else if n < 0 || s.len() == 0 {
        None
    } else {
        match first_bytes(s.drop_first(), n - utf8_width(s[0])) {
            Some(p) => Some(seq![s[0]] + p),
            None => None,
        }
    }
}

/// A date can be cut to its first four bytes: it is shorter, or the fourth
/// byte ends a character (else `&date[..4]` panics).
pub open spec fn year_cut_ok(s: Seq<char>) -> bool {
    utf8_len(s) < 4 || first_bytes(s, 4) is Some
}

/// The first four bytes of a date (its year), or the whole date when it is
/// shorter.
pub open spec fn year_part(s: Seq<char>) -> Seq<char> {
    if utf8_len(s) < 4 {
        s
    } else {
        first_bytes(s, 4).unwrap()
    }
}

fn utf8_width_of(c: char) -> (r: u64)
    ensures
        r == utf8_width(c),
{
    let v = c as u32;
    if v < 0x80 {
        1
    } else if v < 0x800 {
        2
    } else if v < 0x10000 {
        3
    } else {
        4
    }
}

/// A prefix put in front of an optional sequence.
pub open spec fn prefixed(p: Seq<char>, o: Option<Seq<char>>) -> Option<Seq<char>> {
    match o {
        Some(x) => Some(p + x),
        None => None,
    }
}

/// The year part of a date, or none when cutting it would panic.
pub fn year_of(date: &str) -> (r: Option<String>)
    ensures
        match r {
            Some(y) => year_cut_ok(date@) && y@ == year_part(date@),
            None => !year_cut_ok(date@),
        },
{
    let s = chars_of(date);
    let mut acc: u64 = 0;
    let mut i: usize = 0;
    assert(s@.skip(0) =~= s@);
    assert(s@.take(0) =~= Seq::<char>::empty());
    while i < s.len() && acc < 4
        invariant
            i <= s.len(),
            acc <= 4,
            s@ == date@,
            utf8_len(s@) == acc + utf8_len(s@.skip(i as int)),
            first_bytes(s@, 4) == prefixed(s@.take(i as int), first_bytes(s@.skip(i as int), 4 - acc)),
        decreases s.len() - i,
    {
        let w = utf8_width_of(s[i]);
        let ghost rest = s@.skip(i as int);
        assert(rest[0] == s@[i as int]);
        assert(rest.drop_first() =~= s@.skip(i + 1));
        if acc + w > 4 {
            assert(first_bytes(rest.drop_first(), 4 - acc - w) is None);
            assert(first_bytes(s@, 4) is None);
            assert(utf8_len(s@) >= 4);
            return None;
        }
        proof {
            let o = first_bytes(s@.skip(i + 1), 4 - acc - w);
            assert(first_bytes(rest, 4 - acc) == prefixed(seq![s@[i as int]], o));
            assert(s@.take(i + 1) =~= s@.take(i as int) + seq![s@[i as int]]);
            match o {
                Some(x) => {
                    assert(s@.take(i as int) + (seq![s@[i as int]] + x) =~= s@.take(i + 1) + x);
                },
                None => {},
            }
        }
        acc = acc + w;
        i = i + 1;
    }
    if acc == 4 {
        assert(first_bytes(s@.skip(i as int), 0) == Some(Seq::<char>::empty()));
        assert(s@.take(i as int) + Seq::<char>::empty() =~= s@.take(i as int));
        let y = crate::text::subrange_vec(&s, 0, i);
        assert(y@ =~= s@.take(i as int));
        Some(crate::text::string_of(y.as_slice()))
    } else {
        assert(s@.skip(i as int) =~= Seq::<char>::empty());
        Some(to_string(date))
    }
}

/// A write of `value` at `album.<section>.<key>`, in mathematical form.
pub type UpdateV = (Seq<char>, Seq<char>, JsonV);

/// A write of a value at `album.<section>.<key>`.
pub struct Update {
    pub section: String,
    pub key: String,
    pub value: Json,
}

/// The mathematical form of a list of writes.
pub open spec fn updates_model(v: Seq<Update>) -> Seq<UpdateV> {
    Seq::new(v.len(), |i: int| (v[i].section@, v[i].key@, v[i].value.model()))
}

/// The data after each write, in order.
pub open spec fn apply_updates(d: JsonV, ups: Seq<UpdateV>) -> JsonV
    decreases ups.len(),
{
    if ups.len() == 0 {
        d
    } else {
        jset_path(apply_updates(d, ups.drop_last()), album_path(ups.last().0, ups.last().1), ups.last().2)
    }
}

/// Every write goes to a part of `album` that metadata is written to.
pub open spec fn all_album_sections(ups: Seq<UpdateV>) -> bool {
    forall|i: int| 0 <= i < ups.len() ==> album_section(#[trigger] ups[i].0)
}

/// A write of a value that is there.
pub open spec fn opt_update(o: Option<JsonV>, section: Seq<char>, key: Seq<char>) -> Seq<UpdateV> {
    match o {
        Some(v) => seq![(section, key, v)],
        None => Seq::empty(),
    }
}

/// A link written under `album.url` when there is an identifier.
pub open spec fn link_update(id: Option<Seq<char>>, key: Seq<char>, prefix: Seq<char>) -> Seq<UpdateV> {
    match id {
        Some(i) => seq![("url"@, key, JsonV::Str(prefix + i))],
        None => Seq::empty(),
    }
}

fn push_update(ups: &mut Vec<Update>, section: &str, key: &str, value: Json)
    ensures
        updates_model(final(ups)@) == updates_model(old(ups)@).push((section@, key@, value.model())),
{
    ups.push(Update { section: to_string(section), key: to_string(key), value });
    assert(updates_model(ups@) =~= updates_model(old(ups)@).push((section@, key@, value.model())));
}

fn push_opt_update(ups: &mut Vec<Update>, section: &str, key: &str, o: Option<&Json>)
    ensures
        updates_model(final(ups)@) == updates_model(old(ups)@) + opt_update(opt_model(o), section@, key@),
{
    match o {
        Some(v) => {
            push_update(ups, section, key, v.deep_clone());
            assert(updates_model(ups@) =~= updates_model(old(ups)@) + opt_update(opt_model(o), section@, key@));
        },
        None => {
            assert(updates_model(ups@) =~= updates_model(old(ups)@) + opt_update(opt_model(o), section@, key@));
        },
    }
}

fn push_link_update(ups: &mut Vec<Update>, id: Option<&String>, key: &str, prefix: &str)
    ensures
        updates_model(final(ups)@) == updates_model(old(ups)@) + link_update(
            match id {
                Some(i) => Some(i@),
                None => None,
            },
            key@,
            prefix@,
        ),
{
    let ghost idv = match id {
        Some(i) => Some(i@),
        None => None::<Seq<char>>,
    };
    match id {
        Some(i) => {
            let mut c = chars_of(prefix);
            crate::text::append_str(&mut c, i.as_str());
            let link = Json::Str(crate::text::string_of(c.as_slice()));
            push_update(ups, "url", key, link);
            assert(updates_model(ups@) =~= updates_model(old(ups)@) + link_update(idv, key@, prefix@));
        },
        None => {
            assert(updates_model(ups@) =~= updates_model(old(ups)@) + link_update(idv, key@, prefix@));
        },
    }
}

/// Applies each write, in order.
fn apply_update_list(data: &mut Json, ups: &Vec<Update>)
    requires
        album_shaped(old(data).model()),
        all_album_sections(updates_model(ups@)),
    ensures
        final(data).model() == apply_updates(old(data).model(), updates_model(ups@)),
        album_shaped(final(data).model()),
{
    let ghost d0 = data.model();
    let mut i: usize = 0;
    while i < ups.len()
        invariant
            i <= ups.len(),
            all_album_sections(updates_model(ups@)),
            data.model() == apply_updates(d0, updates_model(ups@).subrange(0, i as int)),
            album_shaped(data.model()),
        decreases ups.len() - i,
    {
        let u = &ups[i];
        assert(album_section(updates_model(ups@)[i as int].0));
        set_album_field(data, u.section.as_str(), u.key.as_str(), u.value.deep_clone());
        proof {
            let t = updates_model(ups@).subrange(0, i + 1);
            assert(t.drop_last() =~= updates_model(ups@).subrange(0, i as int));
        }
        i = i + 1;
    }
    assert(updates_model(ups@).subrange(0, ups@.len() as int) =~= updates_model(ups@));
}

/// The first artist credit of a release group, release or track.
pub open spec fn credit_of(v: JsonV) -> Option<JsonV> {
    jfirst(jget(v, "artist-credit"@))
}

/// The artist of a release group: the name of its first credit.
pub open spec fn rg_artist(rg: JsonV) -> Seq<char> {
    match jstr(jat(credit_of(rg), "name"@)) {
        Some(s) => s,
        None => "Unknown Artist"@,
    }
}

/// The artist identifier of a release group's first credit, or null.
pub open spec fn rg_artist_id(rg: JsonV) -> JsonV {
    or_null(jat(jat(credit_of(rg), "artist"@), "id"@))
}

/// The title of a release group.
pub open spec fn rg_title(rg: JsonV) -> Seq<char> {
    match jstr(jget(rg, "title"@)) {
        Some(s) => s,
        None => "Unknown Album"@,
    }
}

/// The first release date of a release group.
pub open spec fn rg_first_date(rg: JsonV) -> Seq<char> {
    match jstr(jget(rg, "first-release-date"@)) {
        Some(s) => s,
        None => ""@,
    }
}

/// The writes that a MusicBrainz release group gives: artist, title, dates,
/// identifiers and links.
pub open spec fn rg_updates(rg: JsonV) -> Seq<UpdateV> {
    seq![
        ("metadata"@, "albumartist"@, JsonV::Str(rg_artist(rg))),
        ("metadata"@, "album"@, JsonV::Str(rg_title(rg))),
        ("metadata"@, "original_date"@, JsonV::Str(rg_first_date(rg))),
        ("metadata"@, "date"@, JsonV::Str(year_part(rg_first_date(rg)))),
        ("mbid"@, "musicbrainz_releasegroupid"@, or_null(jget(rg, "id"@))),
        ("mbid"@, "musicbrainz_albumartistid"@, rg_artist_id(rg)),
    ] + link_update(jstr(jget(rg, "id"@)), "musicbrainz_release_group"@, "https://musicbrainz.org/release-group/"@)
        + link_update(jstr(Some(rg_artist_id(rg))), "musicbrainz_artist"@, "https://musicbrainz.org/artist/"@)
}

/// The writes that Discogs data gives: its links, and the genres and styles
/// of its master (or else its release).
pub open spec fn discogs_updates(dg: JsonV) -> Seq<UpdateV> {
    let urls = jget(dg, "urls"@);
    let src = match jget(dg, "master"@) {
        Some(m) => Some(m),
        None => jget(dg, "release"@),
    };
    opt_update(jat(urls, "release"@), "url"@, "discogs_release"@)
        + opt_update(jat(urls, "master"@), "url"@, "discogs_master"@)
        + opt_update(jat(src, "genres"@), "metadata"@, "genre"@)
        + opt_update(jat(src, "styles"@), "metadata"@, "styles"@)
}

/// The writes of a MusicBrainz release's identifier and link, country, date,
/// and first label and catalog number.
pub open spec fn release_head_updates(r: JsonV) -> Seq<UpdateV> {
    let label = jfirst(jget(r, "label-info"@));
    seq![("mbid"@, "musicbrainz_albumid"@, or_null(jget(r, "id"@)))]
        + link_update(jstr(jget(r, "id"@)), "musicbrainz_release"@, "https://musicbrainz.org/release/"@)
        + opt_update(jget(r, "country"@), "metadata"@, "country"@)
        + opt_update(jget(r, "date"@), "metadata"@, "release_date"@)
        + opt_update(jat(jat(label, "label"@), "name"@), "metadata"@, "label"@)
        + opt_update(jat(label, "catalog-number"@), "metadata"@, "catalognumber"@)
}

/// The write of a release's number of media, when it lists them.
pub open spec fn media_count_update(r: JsonV) -> Seq<UpdateV> {
    match jget(r, "media"@) {
        Some(JsonV::Array(media)) => seq![("info"@, "total_discs"@, JsonV::Number(decimal(media.len())))],
        _ => Seq::empty(),
    }
}

/// The writes that a MusicBrainz release gives: its identifier and link,
/// country, date, first label and catalog number, and its number of media.
pub open spec fn release_updates(r: JsonV) -> Seq<UpdateV> {
    release_head_updates(r) + media_count_update(r)
}

fn rg_updates_of(rg: &Json, year: &str) -> (r: Vec<Update>)
    requires
        year@ == year_part(rg_first_date(rg.model())),
    ensures
        updates_model(r@) == rg_updates(rg.model()),
        all_album_sections(updates_model(r@)),
{
    let credit = first_of(rg.get("artist-credit"));
    let artist = match str_of(at(credit, "name")) {
        Some(s) => str_value(s.as_str()),
        None => str_value("Unknown Artist"),
    };
    let artist_id = cloned_or_null(at(at(credit, "artist"), "id"));
    let album = match str_of(rg.get("title")) {
        Some(s) => str_value(s.as_str()),
        None => str_value("Unknown Album"),
    };
    let date = match str_of(rg.get("first-release-date")) {
        Some(s) => str_value(s.as_str()),
        None => str_value(""),
    };
    let mut ups: Vec<Update> = Vec::new();
    push_update(&mut ups, "metadata", "albumartist", artist);
    push_update(&mut ups, "metadata", "album", album);
    push_update(&mut ups, "metadata", "original_date", date);
    push_update(&mut ups, "metadata", "date", str_value(year));
    push_update(&mut ups, "mbid", "musicbrainz_releasegroupid", cloned_or_null(rg.get("id")));
    let id_copy = artist_id.deep_clone();
    push_update(&mut ups, "mbid", "musicbrainz_albumartistid", artist_id);
    push_link_update(&mut ups, str_of(rg.get("id")), "musicbrainz_release_group", "https://musicbrainz.org/release-group/");
    push_link_update(&mut ups, id_copy.as_str(), "musicbrainz_artist", "https://musicbrainz.org/artist/");
    assert(updates_model(ups@) =~= rg_updates(rg.model()));
    ups
}

fn discogs_updates_of(dg: &Json) -> (r: Vec<Update>)
    ensures
        updates_model(r@) == discogs_updates(dg.model()),
        all_album_sections(updates_model(r@)),
{
    let urls = dg.get("urls");
    let src = match dg.get("master") {
        Some(m) => Some(m),
        None => dg.get("release"),
    };
    let mut ups: Vec<Update> = Vec::new();
    assert(updates_model(ups@) =~= Seq::<UpdateV>::empty());
    push_opt_update(&mut ups, "url", "discogs_release", at(urls, "release"));
    push_opt_update(&mut ups, "url", "discogs_master", at(urls, "master"));
    push_opt_update(&mut ups, "metadata", "genre", at(src, "genres"));
    push_opt_update(&mut ups, "metadata", "styles", at(src, "styles"));
    assert(updates_model(ups@) =~= discogs_updates(dg.model()));
    ups
}

#[verifier::spinoff_prover]
#[verifier::rlimit(30)]
fn release_updates_of(r: &Json) -> (out: Vec<Update>)
    ensures
        updates_model(out@) == release_updates(r.model()),
        all_album_sections(updates_model(out@)),
{
    let label = first_of(r.get("label-info"));
    let mut ups: Vec<Update> = Vec::new();
    push_update(&mut ups, "mbid", "musicbrainz_albumid", cloned_or_null(r.get("id")));
    push_link_update(&mut ups, str_of(r.get("id")), "musicbrainz_release", "https://musicbrainz.org/release/");
    push_opt_update(&mut ups, "metadata", "country", r.get("country"));
    push_opt_update(&mut ups, "metadata", "release_date", r.get("date"));
    push_opt_update(&mut ups, "metadata", "label", at(at(label, "label"), "name"));
    push_opt_update(&mut ups, "metadata", "catalognumber", at(label, "catalog-number"));
    let ghost before = updates_model(ups@);
    assert(before =~= release_head_updates(r.model()));
    match r.get("media") {
        Some(m) => match m.as_array() {
            Some(media) => {
                proof { assert(elements_model(media@).len() == media@.len()); }
                push_update(&mut ups, "info", "total_discs", number_of(media.len() as u64));
                assert(updates_model(ups@) =~= before + media_count_update(r.model()));
            },
            None => {
                assert(updates_model(ups@) =~= before + media_count_update(r.model()));
            },
        },
        None => {
            assert(updates_model(ups@) =~= before + media_count_update(r.model()));
        },
    }
    ups
}

/// A track of a MusicBrainz release: its number on its medium and the
/// medium's number (both from 1), its title (or `Untitled`), its artist and
/// identifiers, falling back to the release group's artist.
pub open spec fn remote_track(m_idx: nat, t_idx: nat, track: JsonV, artist: Seq<char>, artist_id: JsonV) -> JsonV {
    let ta = credit_of(track);
    let t_artist = match jat(ta, "name"@) {
        Some(n) => n,
        None => JsonV::Str(artist),
    };
    let t_artist_id = match jat(jat(ta, "artist"@), "id"@) {
        Some(i) => i,
        None => artist_id,
    };
    let title = match jget(track, "title"@) {
        Some(t) => t,
        None => JsonV::Str("Untitled"@),
    };
    JsonV::Object(
        seq![
            (
                "metadata"@,
                JsonV::Object(
                    seq![
                        ("tracknumber"@, JsonV::Number(decimal(t_idx + 1))),
                        ("discnumber"@, JsonV::Number(decimal(m_idx + 1))),
                        ("title"@, title),
                        ("artist"@, t_artist),
                    ],
                ),
            ),
            (
                "mbid"@,
                JsonV::Object(
                    seq![
                        ("musicbrainz_trackid"@, or_null(jat(jget(track, "recording"@), "id"@))),
                        ("musicbrainz_releasetrackid"@, or_null(jget(track, "id"@))),
                        ("musicbrainz_artistid"@, t_artist_id),
                    ],
                ),
            ),
        ],
    )
}

/// The tracks of one medium.
pub open spec fn medium_tracks(m_idx: nat, medium: JsonV, artist: Seq<char>, artist_id: JsonV) -> Seq<JsonV> {
    match jget(medium, "tracks"@) {
        Some(JsonV::Array(tl)) => Seq::new(tl.len(), |t: int| remote_track(m_idx, t as nat, tl[t], artist, artist_id)),
        _ => Seq::empty(),
    }
}

/// The tracks of the media, medium after medium.
pub open spec fn media_tracks(media: Seq<JsonV>, artist: Seq<char>, artist_id: JsonV) -> Seq<JsonV>
    decreases media.len(),
{
    if media.len() == 0 {
        Seq::empty()
    } else {
        media_tracks(media.drop_last(), artist, artist_id) + medium_tracks(
            (media.len() - 1) as nat,
            media.last(),
            artist,
            artist_id,
        )
    }
}

/// The tracks of a release.
pub open spec fn release_tracks(r: JsonV, artist: Seq<char>, artist_id: JsonV) -> Seq<JsonV> {
    match jget(r, "media"@) {
        Some(JsonV::Array(media)) => media_tracks(media, artist, artist_id),
        _ => Seq::empty(),
    }
}

fn remote_track_of(m_idx: usize, t_idx: usize, track: &Json, artist: &str, artist_id: &Json) -> (r: Json)
    requires
        m_idx < usize::MAX,
        t_idx < usize::MAX,
    ensures
        r.model() == remote_track(m_idx as nat, t_idx as nat, track.model(), artist@, artist_id.model()),
{
    let ta = first_of(track.get("artist-credit"));
    let t_artist = match at(ta, "name") {
        Some(n) => n.deep_clone(),
        None => str_value(artist),
    };
    let t_artist_id = match at(at(ta, "artist"), "id") {
        Some(i) => i.deep_clone(),
        None => artist_id.deep_clone(),
    };
    let title = match track.get("title") {
        Some(t) => t.deep_clone(),
        None => str_value("Untitled"),
    };
    let meta = object4(
        entry("tracknumber", number_of((t_idx + 1) as u64)),
        entry("discnumber", number_of((m_idx + 1) as u64)),
        entry("title", title),
        entry("artist", t_artist),
    );
    let mbid = object3(
        entry("musicbrainz_trackid", cloned_or_null(at(track.get("recording"), "id"))),
        entry("musicbrainz_releasetrackid", cloned_or_null(track.get("id"))),
        entry("musicbrainz_artistid", t_artist_id),
    );
    object2(entry("metadata", meta), entry("mbid", mbid))
}

fn release_tracks_of(r: &Json, artist: &str, artist_id: &Json) -> (out: Vec<Json>)
    ensures
        elements_model(out@) == release_tracks(r.model(), artist@, artist_id.model()),
{
    let mut out: Vec<Json> = Vec::new();
    let media = match r.get("media") {
        Some(m) => match m.as_array() {
            Some(a) => a,
            None => {
                assert(elements_model(out@) =~= Seq::<JsonV>::empty());
                return out;
            },
        },
        None => {
            assert(elements_model(out@) =~= Seq::<JsonV>::empty());
            return out;
        },
    };
    let ghost ms = elements_model(media@);
    let mut i: usize = 0;
    assert(elements_model(out@) =~= media_tracks(ms.subrange(0, 0), artist@, artist_id.model()));
    while i < media.len()
        invariant
            i <= media.len(),
            ms == elements_model(media@),
            elements_model(out@) == media_tracks(ms.subrange(0, i as int), artist@, artist_id.model()),
        decreases media.len() - i,
    {
        let ghost before = elements_model(out@);
        let ghost p = ms.subrange(0, i + 1);
        proof {
            assert(p.drop_last() =~= ms.subrange(0, i as int));
            assert(p.last() == media@[i as int].model());
        }
        match media[i].get("tracks") {
            Some(tv) => match tv.as_array() {
                Some(tl) => {
                    let mut j: usize = 0;
                    while j < tl.len()
                        invariant
                            j <= tl.len(),
                            i < media.len(),
                            elements_model(out@) == before + Seq::new(
                                j as nat,
                                |t: int| remote_track(i as nat, t as nat, tl@[t].model(), artist@, artist_id.model()),
                            ),
                        decreases tl.len() - j,
                    {
                        let t = remote_track_of(i, j, &tl[j], artist, artist_id);
                        let ghost prev = out@;
                        let ghost tm = t.model();
                        out.push(t);
                        assert(elements_model(out@) =~= elements_model(prev).push(tm));
                        assert(elements_model(out@) =~= before + Seq::new(
                            (j + 1) as nat,
                            |t: int| remote_track(i as nat, t as nat, tl@[t].model(), artist@, artist_id.model()),
                        ));
                        j = j + 1;
                    }
                    assert(Seq::new(
                        tl@.len(),
                        |t: int| remote_track(i as nat, t as nat, tl@[t].model(), artist@, artist_id.model()),
                    ) =~= medium_tracks(i as nat, media@[i as int].model(), artist@, artist_id.model()));
                },
                None => {
                    assert(elements_model(out@) =~= before + medium_tracks(i as nat, media@[i as int].model(), artist@, artist_id.model()));
                },
            },
            None => {
                assert(elements_model(out@) =~= before + medium_tracks(i as nat, media@[i as int].model(), artist@, artist_id.model()));
            },
        }
        i = i + 1;
    }
    assert(ms.subrange(0, media@.len() as int) =~= ms);
    out
}

/// A reply from MusicBrainz and Discogs that the merge accepts: it has a
/// release group, and the group's first release date can be cut to its year.
pub open spec fn remote_ok(remote: JsonV) -> bool {
    jget(remote, "release_group"@) is Some && year_cut_ok(rg_first_date(or_null(jget(remote, "release_group"@))))
}

/// All writes of a MusicBrainz and Discogs reply, in order.
pub open spec fn remote_updates(remote: JsonV) -> Seq<UpdateV> {
    rg_updates(or_null(jget(remote, "release_group"@))) + match jget(remote, "discogs"@) {
        Some(dg) => discogs_updates(dg),
        None => Seq::empty(),
    } + match jget(remote, "release"@) {
        Some(r) => release_updates(r),
        None => Seq::empty(),
    }
}

/// The data after a MusicBrainz and Discogs reply was merged in: the writes
/// of `remote_updates`, then, when there is a release, its tracks as the track
/// list.
pub open spec fn remote_applied(d: JsonV, remote: JsonV) -> JsonV {
    let rg = or_null(jget(remote, "release_group"@));
    let d1 = apply_updates(d, remote_updates(remote));
    match jget(remote, "release"@) {
        Some(r) => jset(d1, "tracks"@, JsonV::Array(release_tracks(r, rg_artist(rg), rg_artist_id(rg)))),
        None => d1,
    }
}

/// Whether a MusicBrainz and Discogs reply can be merged (`remote_ok`).
pub fn remote_metadata_ok(remote: &Json) -> (r: bool)
    ensures
        r == remote_ok(remote.model()),
{
    match remote.get("release_group") {
        Some(rg) => {
            let date = match str_of(rg.get("first-release-date")) {
                Some(s) => to_string(s.as_str()),
                None => to_string(""),
            };
            year_of(date.as_str()).is_some()
        },
        None => false,
    }
}

/// Merges a MusicBrainz and Discogs reply into the data: the release group's
/// artist, title, dates, identifiers and links; the Discogs links, genres and
/// styles; and, when there is a release, its identifier, link, country, date,
/// label, catalog number and number of media, and its tracks as the track
/// list.
pub fn apply_remote_metadata(data: &mut Json, remote: &Json)
    requires
        album_shaped(old(data).model()),
        remote_ok(remote.model()),
    ensures
        final(data).model() == remote_applied(old(data).model(), remote.model()),
        album_shaped(final(data).model()),
        tracks_indexable(old(data).model()) ==> tracks_indexable(final(data).model()),
{
    proof {
        if tracks_indexable(data.model()) {
            lemma_remote_tracks_indexable(data.model(), remote.model());
        }
    }
    let rg = match remote.get("release_group") {
        Some(rg) => rg,
        None => return,
    };
    let date = match str_of(rg.get("first-release-date")) {
        Some(s) => to_string(s.as_str()),
        None => to_string(""),
    };
    let year = match year_of(date.as_str()) {
        Some(y) => y,
        None => return,
    };
    let mut ups = rg_updates_of(rg, year.as_str());
    let ghost u0 = updates_model(ups@);
    match remote.get("discogs") {
        Some(dg) => {
            let mut more = discogs_updates_of(dg);
            let ghost m = updates_model(more@);
            ups.append(&mut more);
            assert(updates_model(ups@) =~= u0 + m);
        },
        None => {},
    }
    let ghost u1 = updates_model(ups@);
    match remote.get("release") {
        Some(r) => {
            let mut more = release_updates_of(r);
            let ghost m = updates_model(more@);
            ups.append(&mut more);
            assert(updates_model(ups@) =~= u1 + m);
        },
        None => {},
    }
    assert(updates_model(ups@) =~= remote_updates(remote.model()));
    assert(all_album_sections(updates_model(ups@))) by {
        assert forall|i: int| 0 <= i < updates_model(ups@).len() implies album_section(#[trigger] updates_model(ups@)[i].0) by {
            assert(updates_model(ups@)[i] == remote_updates(remote.model())[i]);
        }
    }
    apply_update_list(data, &ups);
    match remote.get("release") {
        Some(r) => {
            let credit = first_of(rg.get("artist-credit"));
            let artist = match str_of(at(credit, "name")) {
                Some(s) => to_string(s.as_str()),
                None => to_string("Unknown Artist"),
            };
            let artist_id = cloned_or_null(at(at(credit, "artist"), "id"));
            let ts = release_tracks_of(r, artist.as_str(), &artist_id);
            let v = Json::Array(ts);
            proof {
                lemma_model_parts(v);
                reveal_strlit("tracks");
                reveal_strlit("album");
                assert("tracks"@.len() != "album"@.len());
                lemma_top_set(data.model(), "tracks"@, v.model());
            }
            set_key(data, "tracks", v);
        },
        None => {},
    }
}

/// The CUETools database link of a disc identifier, or an empty link.
pub open spec fn ctdb_link(tocid: Option<Seq<char>>) -> Seq<char> {
    match tocid {
        Some(t) => "https://db.cuetools.net/ui/?tocid="@ + t,
        None => ""@,
    }
}

/// The package name of an album: the lower-cased artist and title joined by
/// `-` (the title alone when there is no artist), with every run of
/// characters that are not alphanumeric made one `-` and none at either end.
pub open spec fn package_name(artist: Seq<char>, album: Seq<char>) -> Seq<char> {
    dashed(
        if artist.len() == 0 {
            lowercase(album)
        } else {
            lowercase(artist) + seq!['-'] + lowercase(album)
        },
    )
}

/// A text of `album.metadata`.
pub open spec fn metadata_str(d: JsonV, key: Seq<char>) -> Option<Seq<char>> {
    jstr(jat(jat(jget(d, "album"@), "metadata"@), key))
}

/// The file of the `i`-th track: the `i`-th selected path, under the torrent's
/// directory when the torrent has several files; empty past the last path.
pub open spec fn track_file(i: int, paths: Seq<Seq<char>>, torrent_name: Seq<char>, multi_file: bool) -> Seq<char> {
    if i < paths.len() {
        if multi_file {
            torrent_name + seq!['/'] + paths[i]
        } else {
            paths[i]
        }
    } else {
        ""@
    }
}

/// The track list of the data (empty when it is no array).
pub open spec fn meta_tracks(d: JsonV) -> Seq<JsonV> {
    match jget(d, "tracks"@) {
        Some(JsonV::Array(a)) => a,
        _ => Seq::empty(),
    }
}

/// Every track of the track list can take keys.
pub open spec fn tracks_indexable(d: JsonV) -> bool {
    forall|i: int| 0 <= i < meta_tracks(d).len() ==> indexable(#[trigger] meta_tracks(d)[i])
}

/// The tracks, as many as the longer of the track list and the paths, each
/// with its file; a track past the end of the list starts empty.
pub open spec fn merged_tracks(meta: Seq<JsonV>, paths: Seq<Seq<char>>, torrent_name: Seq<char>, multi_file: bool) -> Seq<JsonV> {
    let n = if paths.len() > meta.len() {
        paths.len()
    } else {
        meta.len()
    };
    Seq::new(
        n,
        |i: int|
            jset(
                if i < meta.len() {
                    meta[i]
                } else {
                    track_base()
                },
                "file"@,
                JsonV::Str(track_file(i, paths, torrent_name, multi_file)),
            ),
    )
}

/// The final data: the disc-identifier link under `album.url.ctdbtocid`, the
/// package name, the tracks with their files, and `’` made `'` in every string.
pub open spec fn finished(d: JsonV, torrent_name: Seq<char>, multi_file: bool, paths: Seq<Seq<char>>, tocid: Option<Seq<char>>) -> JsonV {
    let d1 = jset_path(d, album_path("url"@, "ctdbtocid"@), JsonV::Str(ctdb_link(tocid)));
    let album = match metadata_str(d1, "album"@) {
        Some(a) => a,
        None => torrent_name,
    };
    let artist = match metadata_str(d1, "albumartist"@) {
        Some(a) => a,
        None => ""@,
    };
    let d2 = jset(d1, "name"@, JsonV::Str(package_name(artist, album)));
    let d3 = jset(d2, "tracks"@, JsonV::Array(merged_tracks(meta_tracks(d2), paths, torrent_name, multi_file)));
    quotes_fixed(d3)
}

fn metadata_text(data: &Json, key: &str) -> (r: Option<String>)
    ensures
        match r {
            Some(s) => metadata_str(data.model(), key@) == Some(s@),
            None => metadata_str(data.model(), key@) is None,
        },
{
    match str_of(at(at(data.get("album"), "metadata"), key)) {
        Some(s) => Some(to_string(s.as_str())),
        None => None,
    }
}

/// The package name of an album.
pub fn package_name_of(artist: &str, album: &str) -> (r: String)
    ensures
        r@ == package_name(artist@, album@),
{
    let lower_album = album.to_lowercase();
    let mut base = chars_of(lower_album.as_str());
    let artist_chars = chars_of(artist);
    if artist_chars.len() > 0 {
        let lower_artist = artist.to_lowercase();
        let mut c = chars_of(lower_artist.as_str());
        c.push('-');
        append_str(&mut c, lower_album.as_str());
        assert(c@ =~= lowercase(artist@) + seq!['-'] + lowercase(album@));
        base = c;
    }
    let d = dashed_vec(&base);
    string_of(d.as_slice())
}

/// The file of the `i`-th track.
fn track_file_of(i: usize, paths: &Vec<String>, torrent_name: &str, multi_file: bool) -> (r: String)
    ensures
        r@ == track_file(i as int, views_str(paths@), torrent_name@, multi_file),
{
    if i < paths.len() {
        if multi_file {
            let mut c = chars_of(torrent_name);
            c.push('/');
            append_str(&mut c, paths[i].as_str());
            string_of(c.as_slice())
        } else {
            to_string(paths[i].as_str())
        }
    } else {
        to_string("")
    }
}

/// Gives the data its final form: the disc-identifier link (empty without an
/// identifier), the package name from the album's artist and title (the
/// torrent's name standing in for a missing title), one track per track of
/// the list or selected path with its file (under the torrent's directory
/// when the torrent has several files), and `’` made `'` in every string.
pub fn finish_album_data(
    data: &mut Json,
    torrent_name: &str,
    multi_file: bool,
    paths: &Vec<String>,
    tocid: Option<&str>,
)
    requires
        album_shaped(old(data).model()),
        tracks_indexable(old(data).model()),
    ensures
        final(data).model() == finished(
            old(data).model(),
            torrent_name@,
            multi_file,
            views_str(paths@),
            match tocid {
                Some(t) => Some(t@),
                None => None,
            },
        ),
{
    let ghost d0 = data.model();
    let link = match tocid {
        Some(t) => {
            let mut c = chars_of("https://db.cuetools.net/ui/?tocid=");
            append_str(&mut c, t);
            string_of(c.as_slice())
        },
        None => to_string(""),
    };
    set_album_field(data, "url", "ctdbtocid", Json::Str(link));
    let ghost d1 = data.model();
    let album = match metadata_text(data, "album") {
        Some(a) => a,
        None => to_string(torrent_name),
    };
    let artist = match metadata_text(data, "albumartist") {
        Some(a) => a,
        None => to_string(""),
    };
    let name = package_name_of(artist.as_str(), album.as_str());
    proof {
        reveal_strlit("tracks");
        reveal_strlit("album");
        reveal_strlit("name");
        assert("tracks"@.len() != "album"@.len());
        assert("tracks"@.len() != "name"@.len());
        assert("name"@.len() != "album"@.len());
        lemma_album_set(d0, "url"@, "ctdbtocid"@, JsonV::Str(link@));
        let a2 = jset(
            jchild(d0, "album"@),
            "url"@,
            jset(jchild(jchild(d0, "album"@), "url"@), "ctdbtocid"@, JsonV::Str(link@)),
        );
        lemma_jget_jset(d0, "album"@, a2, "tracks"@);
        lemma_top_set(d1, "name"@, JsonV::Str(name@));
        lemma_jget_jset(d1, "name"@, JsonV::Str(name@), "tracks"@);
    }
    set_key(data, "name", Json::Str(name));
    let ghost d2 = data.model();
    assert(meta_tracks(d2) == meta_tracks(d0));
    let mut out: Vec<Json> = Vec::new();
    {
        let empty: Vec<Json> = Vec::new();
        let meta: &Vec<Json> = match data.get("tracks") {
            Some(t) => match t.as_array() {
                Some(a) => a,
                None => &empty,
            },
            None => &empty,
        };
        proof { lemma_model_parts(Json::Array(empty)); }
        assert(elements_model(meta@) == meta_tracks(d2)) by {
            if meta@.len() == 0 {
                assert(elements_model(meta@) =~= Seq::<JsonV>::empty());
            }
        }
        let n = if paths.len() > meta.len() { paths.len() } else { meta.len() };
        let ghost mt = meta_tracks(d2);
        let ghost target = merged_tracks(mt, views_str(paths@), torrent_name@, multi_file);
        let mut i: usize = 0;
        while i < n
            invariant
                i <= n,
                n == target.len(),
                elements_model(meta@) == mt,
                mt == meta_tracks(d0),
                tracks_indexable(d0),
                target == merged_tracks(mt, views_str(paths@), torrent_name@, multi_file),
                out@.len() == i,
                forall|k: int| 0 <= k < i ==> (#[trigger] out@[k]).model() == target[k],
            decreases n - i,
        {
            let base = if i < meta.len() {
                assert(indexable(mt[i as int]));
                meta[i].deep_clone()
            } else {
                proof { lemma_track_base(); }
                track_base_value()
            };
            let file = track_file_of(i, paths, torrent_name, multi_file);
            let t = base.with_key("file", Json::Str(file));
            out.push(t);
            i = i + 1;
        }
        assert(elements_model(out@) =~= target);
    }
    let v = Json::Array(out);
    proof { lemma_model_parts(v); }
    let ghost tm = v.model();
    proof { lemma_jget_jset(d2, "tracks"@, tm, "tracks"@); }
    set_key(data, "tracks", v);
    sanitize_quotes(data);
}

/// The files of a torrent that the filter selects as tracks.
pub open spec fn torrent_tracks(files: Seq<Seq<char>>, pats: Seq<Seq<char>>) -> Seq<Seq<char>>
    decreases files.len(),
{
    if files.len() == 0 {
        Seq::empty()
    } else {
        let prev = torrent_tracks(files.drop_last(), pats);
        if patterns_match(pats, files.last()) {
            prev.push(files.last())
        } else {
            prev
        }
    }
}

/// The torrent's files (their paths within the torrent) that the filter's
/// patterns match, in the natural path order (a stable sort: paths of which
/// neither compares greater keep the torrent's order). Fails when the filter
/// does not compile.
pub fn torrent_track_paths(files: &Vec<String>, filter: &str) -> (r: Result<Vec<String>, GlobError>)
    ensures
        r is Ok <==> all_valid(glob_patterns(filter@)) && globset_build_ok(glob_patterns(filter@)),
        r matches Ok(v) ==> views_str(v@).to_multiset() == torrent_tracks(views_str(files@), glob_patterns(filter@)).to_multiset(),
        r matches Ok(v) ==> (crate::order::path_order_total_on(v@) ==> crate::order::paths_sorted(v@)),
        r matches Ok(v) ==> crate::order::stable_path_sort_of(views_str(v@), torrent_tracks(views_str(files@), glob_patterns(filter@))),
{
    let set = match build_globset(filter) {
        Ok(s) => s,
        Err(e) => return Err(e),
    };
    let ghost pats = glob_patterns(filter@);
    let mut kept: Vec<String> = Vec::new();
    let mut i: usize = 0;
    while i < files.len()
        invariant
            i <= files.len(),
            globset_globs(set) == pats,
            views_str(kept@) == torrent_tracks(views_str(files@).subrange(0, i as int), pats),
        decreases files.len() - i,
    {
        let ghost t = views_str(files@).subrange(0, i + 1);
        assert(t.drop_last() =~= views_str(files@).subrange(0, i as int));
        assert(t.last() == files@[i as int]@);
        if is_match(&set, files[i].as_str()) {
            kept.push(files[i].clone());
            assert(views_str(kept@) =~= torrent_tracks(t, pats));
        }
        i = i + 1;
    }
    assert(views_str(files@).subrange(0, files@.len() as int) =~= views_str(files@));
    let sorted = sort_paths(kept);
    proof {
        crate::order::lemma_path_total_multiset(sorted@, kept@);
        crate::order::lemma_views_stable_exists(sorted@, kept@, torrent_tracks(views_str(files@), glob_patterns(filter@)));
        crate::manifest::lemma_views_multiset(sorted@, kept@);
    }
    Ok(sorted)
}

/// The number of discs that a metadata file gives is at least the starting
/// count, and each track's disc number found is at most it.
pub proof fn lemma_tracks_disc_max(m: nat, ts: Seq<JsonV>)
    ensures
        tracks_disc_max(m, ts) >= m,
    decreases ts.len(),
{
    if ts.len() > 0 {
        lemma_tracks_disc_max(m, ts.drop_last());
        if let JsonV::Object(es) = ts.last() {
            lemma_entries_disc_max(tracks_disc_max(m, ts.drop_last()), es);
        }
    }
}

/// The greatest disc number among entries is at least the starting one.
pub proof fn lemma_entries_disc_max(m: nat, es: Seq<(Seq<char>, JsonV)>)
    ensures
        entries_disc_max(m, es) >= m,
    decreases es.len(),
{
    if es.len() > 0 {
        lemma_entries_disc_max(m, es.drop_last());
    }
}

/// A package name has no `-` at either end and no two `-` in a row.
pub proof fn lemma_package_name_clean(artist: Seq<char>, album: Seq<char>)
    ensures
        dash_clean(package_name(artist, album)),
{
    let base = if artist.len() == 0 {
        lowercase(album)
    } else {
        lowercase(artist) + seq!['-'] + lowercase(album)
    };
    lemma_dashed_clean(base);
}

/// The final data holds no `’` in any string value, and has as many tracks as
/// the longer of its track list and the selected paths.
pub proof fn lemma_finished(d: JsonV, torrent_name: Seq<char>, multi_file: bool, paths: Seq<Seq<char>>, tocid: Option<Seq<char>>)
    ensures
        no_curly_quote(finished(d, torrent_name, multi_file, paths, tocid)),
{
    let d1 = jset_path(d, album_path("url"@, "ctdbtocid"@), JsonV::Str(ctdb_link(tocid)));
    let album = match metadata_str(d1, "album"@) {
        Some(a) => a,
        None => torrent_name,
    };
    let artist = match metadata_str(d1, "albumartist"@) {
        Some(a) => a,
        None => ""@,
    };
    let d2 = jset(d1, "name"@, JsonV::Str(package_name(artist, album)));
    let d3 = jset(d2, "tracks"@, JsonV::Array(merged_tracks(meta_tracks(d2), paths, torrent_name, multi_file)));
    lemma_quotes_fixed(d3);
}

/// The data of a new film manifest: an empty name, the origin hash, the
/// torrent source (with an empty web source beside it), the poster, and the
/// film with empty metadata and link and its video file.
pub open spec fn film_base_data(
    origin_hash: Seq<char>,
    torrent_file: Seq<char>,
    torrent_hash: Seq<char>,
    poster_file: Seq<char>,
    poster_hash: Seq<char>,
    video: Seq<char>,
) -> JsonV {
    JsonV::Object(
        seq![
            ("name"@, JsonV::Str(""@)),
            ("origin"@, JsonV::Object(seq![("hash"@, JsonV::Str(origin_hash))])),
            (
                "source"@,
                JsonV::Object(
                    seq![
                        ("type"@, JsonV::Str("torrent"@)),
                        (
                            "torrent"@,
                            JsonV::Object(seq![("file"@, JsonV::Str(torrent_file)), ("hash"@, JsonV::Str(torrent_hash))]),
                        ),
                        (
                            "web"@,
                            JsonV::Object(seq![("url"@, JsonV::Str(""@)), ("hash"@, JsonV::Str(PLACEHOLDER_HASH@))]),
                        ),
                    ],
                ),
            ),
            ("poster"@, JsonV::Object(seq![("file"@, JsonV::Str(poster_file)), ("hash"@, JsonV::Str(poster_hash))])),
            (
                "film"@,
                JsonV::Object(
                    seq![
                        (
                            "metadata"@,
                            JsonV::Object(
                                seq![
                                    ("title"@, JsonV::Str(""@)),
                                    ("year"@, JsonV::Str(""@)),
                                    ("director"@, JsonV::Str(""@)),
                                ],
                            ),
                        ),
                        ("urls"@, JsonV::Object(seq![("letterboxd"@, JsonV::Str(""@))])),
                        ("video"@, JsonV::Str(video)),
                    ],
                ),
            ),
        ],
    )
}

/// An object of one entry.
fn object1(a: (String, Json)) -> (r: Json)
    ensures
        r.model() == JsonV::Object(seq![(a.0@, a.1.model())]),
{
    let es = vec![a];
    let r = object_value(es);
    assert(entries_model(es@) =~= seq![(a.0@, a.1.model())]);
    r
}

/// The data of a new film manifest.
pub fn base_film_data(
    origin_hash: &str,
    torrent_file: &str,
    torrent_hash: &str,
    poster_file: &str,
    poster_hash: &str,
    video: &str,
) -> (r: Json)
    ensures
        r.model() == film_base_data(origin_hash@, torrent_file@, torrent_hash@, poster_file@, poster_hash@, video@),
{
    let origin = object1(entry("hash", str_value(origin_hash)));
    let torrent = object2(entry("file", str_value(torrent_file)), entry("hash", str_value(torrent_hash)));
    let web = object2(entry("url", str_value("")), entry("hash", str_value(PLACEHOLDER_HASH)));
    let source = object3(entry("type", str_value("torrent")), entry("torrent", torrent), entry("web", web));
    let poster = object2(entry("file", str_value(poster_file)), entry("hash", str_value(poster_hash)));
    let metadata = object3(entry("title", str_value("")), entry("year", str_value("")), entry("director", str_value("")));
    let urls = object1(entry("letterboxd", str_value("")));
    let film = object3(entry("metadata", metadata), entry("urls", urls), entry("video", str_value(video)));
    let es = vec![
        entry("name", str_value("")),
        entry("origin", origin),
        entry("source", source),
        entry("poster", poster),
        entry("film", film),
    ];
    let r = object_value(es);
    assert(entries_model(es@) =~= seq![
        ("name"@, JsonV::Str(""@)),
        ("origin"@, origin.model()),
        ("source"@, source.model()),
        ("poster"@, poster.model()),
        ("film"@, film.model()),
    ]);
    r
}

/// Merging album entries keeps the data album-shaped.
pub proof fn lemma_album_entries_shaped(d: JsonV, es: Seq<(Seq<char>, JsonV)>)
    requires
        album_shaped(d),
    ensures
        album_shaped(with_album_entries(d, es)),
    decreases es.len(),
{
    if es.len() > 0 {
        lemma_album_entries_shaped(d, es.drop_last());
        lemma_album_set(with_album_entries(d, es.drop_last()), section_for(es.last().0), es.last().0, es.last().1);
    }
}

/// No two entries have the same key.
pub open spec fn distinct_keys(es: Seq<(Seq<char>, JsonV)>) -> bool {
    forall|i: int, j: int| 0 <= i < j < es.len() ==> es[i].0 != es[j].0
}

/// After the album entries of a metadata file (each key once) were merged,
/// each entry's value is read back at `album.<section>.<key>`, in the part
/// that `section_for` names.
pub proof fn lemma_album_entries_read_back(d: JsonV, es: Seq<(Seq<char>, JsonV)>, i: int)
    requires
        album_shaped(d),
        distinct_keys(es),
        0 <= i < es.len(),
    ensures
        jget_path(with_album_entries(d, es), album_path(section_for(es[i].0), es[i].0)) == Some(es[i].1),
    decreases es.len(),
{
    let rest = es.drop_last();
    let prev = with_album_entries(d, rest);
    let last = es.last();
    lemma_album_entries_shaped(d, rest);
    lemma_album_set(prev, section_for(last.0), last.0, last.1);
    let p = album_path(section_for(last.0), last.0);
    if i == es.len() - 1 {
        lemma_set_path_get(prev, p, last.1);
    } else {
        assert(distinct_keys(rest)) by {
            assert forall|a: int, b: int| 0 <= a < b < rest.len() implies rest[a].0 != rest[b].0 by {
                assert(rest[a] == es[a] && rest[b] == es[b]);
            }
        }
        assert(rest[i] == es[i]);
        lemma_album_entries_read_back(d, rest, i);
        let q = album_path(section_for(es[i].0), es[i].0);
        assert(p != q) by {
            assert(es[i].0 != es[es.len() - 1].0);
            assert(p[2] != q[2]);
        }
        lemma_set_path_other(prev, p, q, last.1);
    }
}

/// Applying writes to parts of `album` keeps the data album-shaped.
pub proof fn lemma_updates_shaped(d: JsonV, ups: Seq<UpdateV>)
    requires
        album_shaped(d),
        all_album_sections(ups),
    ensures
        album_shaped(apply_updates(d, ups)),
    decreases ups.len(),
{
    if ups.len() > 0 {
        let rest = ups.drop_last();
        assert(all_album_sections(rest)) by {
            assert forall|i: int| 0 <= i < rest.len() implies album_section(#[trigger] rest[i].0) by {
                assert(rest[i] == ups[i]);
            }
        }
        lemma_updates_shaped(d, rest);
        assert(album_section(ups[ups.len() - 1].0));
        lemma_album_set(apply_updates(d, rest), ups.last().0, ups.last().1, ups.last().2);
    }
}

/// No two writes go to the same place.
pub open spec fn distinct_places(ups: Seq<UpdateV>) -> bool {
    forall|i: int, j: int| 0 <= i < j < ups.len() ==> (ups[i].0, ups[i].1) != (ups[j].0, ups[j].1)
}

/// After writes to different places of `album`, each written value is read
/// back at its place.
pub proof fn lemma_updates_read_back(d: JsonV, ups: Seq<UpdateV>, i: int)
    requires
        album_shaped(d),
        all_album_sections(ups),
        distinct_places(ups),
        0 <= i < ups.len(),
    ensures
        jget_path(apply_updates(d, ups), album_path(ups[i].0, ups[i].1)) == Some(ups[i].2),
    decreases ups.len(),
{
    let rest = ups.drop_last();
    assert(all_album_sections(rest)) by {
        assert forall|k: int| 0 <= k < rest.len() implies album_section(#[trigger] rest[k].0) by {
            assert(rest[k] == ups[k]);
        }
    }
    let prev = apply_updates(d, rest);
    let last = ups.last();
    lemma_updates_shaped(d, rest);
    assert(album_section(ups[ups.len() - 1].0));
    lemma_album_set(prev, last.0, last.1, last.2);
    let p = album_path(last.0, last.1);
    if i == ups.len() - 1 {
        lemma_set_path_get(prev, p, last.2);
    } else {
        assert(distinct_places(rest)) by {
            assert forall|a: int, b: int| 0 <= a < b < rest.len() implies (rest[a].0, rest[a].1) != (rest[b].0, rest[b].1) by {
                assert(rest[a] == ups[a] && rest[b] == ups[b]);
            }
        }
        assert(rest[i] == ups[i]);
        lemma_updates_read_back(d, rest, i);
        let q = album_path(ups[i].0, ups[i].1);
        assert(p != q) by {
            assert((ups[i].0, ups[i].1) != (ups[ups.len() - 1].0, ups[ups.len() - 1].1));
            if p == q {
                assert(p[1] == q[1] && p[2] == q[2]);
            }
        }
        lemma_set_path_other(prev, p, q, last.2);
    }
}

/// The disc count that entries give is at least each disc number among them.
pub proof fn lemma_entries_disc_max_bounds(m: nat, es: Seq<(Seq<char>, JsonV)>, k: int)
    requires
        0 <= k < es.len(),
        es[k].0 == "discnumber"@,
        as_u64(es[k].1) is Some,
    ensures
        entries_disc_max(m, es) >= as_u64(es[k].1).unwrap(),
    decreases es.len(),
{
    let rest = es.drop_last();
    lemma_entries_disc_max(m, rest);
    if k < es.len() - 1 {
        assert(rest[k] == es[k]);
        lemma_entries_disc_max_bounds(m, rest, k);
    }
}

/// The number of discs that a metadata file gives is at least 1 and at least
/// the disc number of each of its tracks (a `discnumber` that is a
/// non-negative integer).
pub proof fn lemma_tracks_disc_max_bounds(ts: Seq<JsonV>, t: int, k: int)
    requires
        0 <= t < ts.len(),
        ts[t] matches JsonV::Object(es) && 0 <= k < es.len() && es[k].0 == "discnumber"@ && as_u64(es[k].1) is Some,
    ensures
        tracks_disc_max(1, ts) >= 1,
        ts[t] matches JsonV::Object(es) && tracks_disc_max(1, ts) >= as_u64(es[k].1).unwrap(),
    decreases ts.len(),
{
    lemma_tracks_disc_max(1, ts);
    let rest = ts.drop_last();
    if t < ts.len() - 1 {
        assert(rest[t] == ts[t]);
        lemma_tracks_disc_max_bounds(rest, t, k);
        if let JsonV::Object(les) = ts.last() {
            lemma_entries_disc_max(tracks_disc_max(1, rest), les);
        }
    } else {
        if let JsonV::Object(es) = ts[t] {
            lemma_entries_disc_max_bounds(tracks_disc_max(1, rest), es, k);
        }
    }
}

/// The place of each key that a MusicBrainz and Discogs reply writes, in the
/// order of the writes.
pub open spec fn remote_key_rank(k: Seq<char>) -> int {
    if k == "albumartist"@ {
        0
    } else if k == "album"@ {
        1
    } else if k == "original_date"@ {
        2
    } else if k == "date"@ {
        3
    } else if k == "musicbrainz_releasegroupid"@ {
        4
    } else if k == "musicbrainz_albumartistid"@ {
        5
    } else if k == "musicbrainz_release_group"@ {
        6
    } else if k == "musicbrainz_artist"@ {
        7
    } else if k == "discogs_release"@ {
        8
    } else if k == "discogs_master"@ {
        9
    } else if k == "genre"@ {
        10
    } else if k == "styles"@ {
        11
    } else if k == "musicbrainz_albumid"@ {
        12
    } else if k == "musicbrainz_release"@ {
        13
    } else if k == "country"@ {
        14
    } else if k == "release_date"@ {
        15
    } else if k == "label"@ {
        16
    } else if k == "catalognumber"@ {
        17
    } else if k == "total_discs"@ {
        18
    } else {
        19
    }
}

/// The keys of the writes come in strictly increasing rank, each rank in
/// `[lo, hi)`.
pub open spec fn ranked_in(ups: Seq<UpdateV>, lo: int, hi: int) -> bool {
    &&& forall|i: int, j: int| 0 <= i < j < ups.len() ==> remote_key_rank(#[trigger] ups[i].1) < remote_key_rank(#[trigger] ups[j].1)
    &&& forall|i: int| 0 <= i < ups.len() ==> lo <= remote_key_rank(#[trigger] ups[i].1) < hi
    &&& all_album_sections(ups)
}

proof fn lemma_ranked_concat(a: Seq<UpdateV>, b: Seq<UpdateV>, lo: int, mid: int, hi: int)
    requires
        lo <= mid <= hi,
        ranked_in(a, lo, mid),
        ranked_in(b, mid, hi),
    ensures
        ranked_in(a + b, lo, hi),
{
    let c = a + b;
    assert forall|i: int, j: int| 0 <= i < j < c.len() implies remote_key_rank(#[trigger] c[i].1) < remote_key_rank(#[trigger] c[j].1) by {
        if j < a.len() {
            assert(c[i] == a[i] && c[j] == a[j]);
        } else if i >= a.len() {
            assert(c[i] == b[i - a.len()] && c[j] == b[j - a.len()]);
        } else {
            assert(c[i] == a[i] && c[j] == b[j - a.len()]);
        }
    }
    assert forall|i: int| 0 <= i < c.len() implies lo <= remote_key_rank(#[trigger] c[i].1) < hi && album_section(
        c[i].0,
    ) by {
        if i < a.len() {
            assert(c[i] == a[i]);
            assert(album_section(a[i].0));
        } else {
            assert(c[i] == b[i - a.len()]);
            assert(album_section(b[i - a.len()].0));
        }
    }
}

proof fn lemma_ranked_empty(lo: int, hi: int)
    ensures
        ranked_in(Seq::<UpdateV>::empty(), lo, hi),
{
}

proof fn lemma_ranked_single(u: UpdateV, r: int)
    requires
        remote_key_rank(u.1) == r,
        album_section(u.0),
    ensures
        ranked_in(seq![u], r, r + 1),
{
}

proof fn lemma_ranked_opt(o: Option<JsonV>, section: Seq<char>, key: Seq<char>, r: int)
    requires
        remote_key_rank(key) == r,
        album_section(section),
    ensures
        ranked_in(opt_update(o, section, key), r, r + 1),
{
    match o {
        Some(v) => lemma_ranked_single((section, key, v), r),
        None => lemma_ranked_empty(r, r + 1),
    }
}

proof fn lemma_ranked_link(id: Option<Seq<char>>, key: Seq<char>, prefix: Seq<char>, r: int)
    requires
        remote_key_rank(key) == r,
    ensures
        ranked_in(link_update(id, key, prefix), r, r + 1),
{
    match id {
        Some(i) => lemma_ranked_single(("url"@, key, JsonV::Str(prefix + i)), r),
        None => lemma_ranked_empty(r, r + 1),
    }
}

proof fn lemma_key_ranks()
    ensures
        remote_key_rank("albumartist"@) == 0,
        remote_key_rank("album"@) == 1,
        remote_key_rank("original_date"@) == 2,
        remote_key_rank("date"@) == 3,
        remote_key_rank("musicbrainz_releasegroupid"@) == 4,
        remote_key_rank("musicbrainz_albumartistid"@) == 5,
        remote_key_rank("musicbrainz_release_group"@) == 6,
        remote_key_rank("musicbrainz_artist"@) == 7,
        remote_key_rank("discogs_release"@) == 8,
        remote_key_rank("discogs_master"@) == 9,
        remote_key_rank("genre"@) == 10,
        remote_key_rank("styles"@) == 11,
        remote_key_rank("musicbrainz_albumid"@) == 12,
        remote_key_rank("musicbrainz_release"@) == 13,
        remote_key_rank("country"@) == 14,
        remote_key_rank("release_date"@) == 15,
        remote_key_rank("label"@) == 16,
        remote_key_rank("catalognumber"@) == 17,
        remote_key_rank("total_discs"@) == 18,
{
    reveal_strlit("albumartist");
    reveal_strlit("album");
    reveal_strlit("original_date");
    reveal_strlit("date");
    reveal_strlit("musicbrainz_releasegroupid");
    reveal_strlit("musicbrainz_albumartistid");
    reveal_strlit("musicbrainz_release_group");
    reveal_strlit("musicbrainz_artist");
    reveal_strlit("discogs_release");
    reveal_strlit("discogs_master");
    reveal_strlit("genre");
    reveal_strlit("styles");
    reveal_strlit("musicbrainz_albumid");
    reveal_strlit("musicbrainz_release");
    reveal_strlit("country");
    reveal_strlit("release_date");
    reveal_strlit("label");
    reveal_strlit("catalognumber");
    reveal_strlit("total_discs");
    assert("albumartist"@.len() != "album"@.len());
    assert("albumartist"@.len() != "original_date"@.len());
    assert("album"@.len() != "original_date"@.len());
    assert("albumartist"@.len() != "date"@.len());
    assert("album"@.len() != "date"@.len());
    assert("original_date"@.len() != "date"@.len());
    assert("albumartist"@.len() != "musicbrainz_releasegroupid"@.len());
    assert("album"@.len() != "musicbrainz_releasegroupid"@.len());
    assert("original_date"@.len() != "musicbrainz_releasegroupid"@.len());
    assert("date"@.len() != "musicbrainz_releasegroupid"@.len());
    assert("albumartist"@.len() != "musicbrainz_albumartistid"@.len());
    assert("album"@.len() != "musicbrainz_albumartistid"@.len());
    assert("original_date"@.len() != "musicbrainz_albumartistid"@.len());
    assert("date"@.len() != "musicbrainz_albumartistid"@.len());
    assert("musicbrainz_releasegroupid"@.len() != "musicbrainz_albumartistid"@.len());
    assert("albumartist"@.len() != "musicbrainz_release_group"@.len());
    assert("album"@.len() != "musicbrainz_release_group"@.len());
    assert("original_date"@.len() != "musicbrainz_release_group"@.len());
    assert("date"@.len() != "musicbrainz_release_group"@.len());
    assert("musicbrainz_releasegroupid"@.len() != "musicbrainz_release_group"@.len());
    assert("musicbrainz_albumartistid"@[12] != "musicbrainz_release_group"@[12]);
    assert("albumartist"@.len() != "musicbrainz_artist"@.len());
    assert("album"@.len() != "musicbrainz_artist"@.len());
    assert("original_date"@.len() != "musicbrainz_artist"@.len());
    assert("date"@.len() != "musicbrainz_artist"@.len());
    assert("musicbrainz_releasegroupid"@.len() != "musicbrainz_artist"@.len());
    assert("musicbrainz_albumartistid"@.len() != "musicbrainz_artist"@.len());
    assert("musicbrainz_release_group"@.len() != "musicbrainz_artist"@.len());
    assert("albumartist"@.len() != "discogs_release"@.len());
    assert("album"@.len() != "discogs_release"@.len());
    assert("original_date"@.len() != "discogs_release"@.len());
    assert("date"@.len() != "discogs_release"@.len());
    assert("musicbrainz_releasegroupid"@.len() != "discogs_release"@.len());
    assert("musicbrainz_albumartistid"@.len() != "discogs_release"@.len());
    assert("musicbrainz_release_group"@.len() != "discogs_release"@.len());
    assert("musicbrainz_artist"@.len() != "discogs_release"@.len());
    assert("albumartist"@.len() != "discogs_master"@.len());
    assert("album"@.len() != "discogs_master"@.len());
    assert("original_date"@.len() != "discogs_master"@.len());
    assert("date"@.len() != "discogs_master"@.len());
    assert("musicbrainz_releasegroupid"@.len() != "discogs_master"@.len());
    assert("musicbrainz_albumartistid"@.len() != "discogs_master"@.len());
    assert("musicbrainz_release_group"@.len() != "discogs_master"@.len());
    assert("musicbrainz_artist"@.len() != "discogs_master"@.len());
    assert("discogs_release"@.len() != "discogs_master"@.len());
    assert("albumartist"@.len() != "genre"@.len());
    assert("album"@[0] != "genre"@[0]);
    assert("original_date"@.len() != "genre"@.len());
    assert("date"@.len() != "genre"@.len());
    assert("musicbrainz_releasegroupid"@.len() != "genre"@.len());
    assert("musicbrainz_albumartistid"@.len() != "genre"@.len());
    assert("musicbrainz_release_group"@.len() != "genre"@.len());
    assert("musicbrainz_artist"@.len() != "genre"@.len());
    assert("discogs_release"@.len() != "genre"@.len());
    assert("discogs_master"@.len() != "genre"@.len());
    assert("albumartist"@.len() != "styles"@.len());
    assert("album"@.len() != "styles"@.len());
    assert("original_date"@.len() != "styles"@.len());
    assert("date"@.len() != "styles"@.len());
    assert("musicbrainz_releasegroupid"@.len() != "styles"@.len());
    assert("musicbrainz_albumartistid"@.len() != "styles"@.len());
    assert("musicbrainz_release_group"@.len() != "styles"@.len());
    assert("musicbrainz_artist"@.len() != "styles"@.len());
    assert("discogs_release"@.len() != "styles"@.len());
    assert("discogs_master"@.len() != "styles"@.len());
    assert("genre"@.len() != "styles"@.len());
    assert("albumartist"@.len() != "musicbrainz_albumid"@.len());
    assert("album"@.len() != "musicbrainz_albumid"@.len());
    assert("original_date"@.len() != "musicbrainz_albumid"@.len());
    assert("date"@.len() != "musicbrainz_albumid"@.len());
    assert("musicbrainz_releasegroupid"@.len() != "musicbrainz_albumid"@.len());
    assert("musicbrainz_albumartistid"@.len() != "musicbrainz_albumid"@.len());
    assert("musicbrainz_release_group"@.len() != "musicbrainz_albumid"@.len());
    assert("musicbrainz_artist"@.len() != "musicbrainz_albumid"@.len());
    assert("discogs_release"@.len() != "musicbrainz_albumid"@.len());
    assert("discogs_master"@.len() != "musicbrainz_albumid"@.len());
    assert("genre"@.len() != "musicbrainz_albumid"@.len());
    assert("styles"@.len() != "musicbrainz_albumid"@.len());
    assert("albumartist"@.len() != "musicbrainz_release"@.len());
    assert("album"@.len() != "musicbrainz_release"@.len());
    assert("original_date"@.len() != "musicbrainz_release"@.len());
    assert("date"@.len() != "musicbrainz_release"@.len());
    assert("musicbrainz_releasegroupid"@.len() != "musicbrainz_release"@.len());
    assert("musicbrainz_albumartistid"@.len() != "musicbrainz_release"@.len());
    assert("musicbrainz_release_group"@.len() != "musicbrainz_release"@.len());
    assert("musicbrainz_artist"@.len() != "musicbrainz_release"@.len());
    assert("discogs_release"@.len() != "musicbrainz_release"@.len());
    assert("discogs_master"@.len() != "musicbrainz_release"@.len());
    assert("genre"@.len() != "musicbrainz_release"@.len());
    assert("styles"@.len() != "musicbrainz_release"@.len());
    assert("musicbrainz_albumid"@[12] != "musicbrainz_release"@[12]);
    assert("albumartist"@.len() != "country"@.len());
    assert("album"@.len() != "country"@.len());
    assert("original_date"@.len() != "country"@.len());
    assert("date"@.len() != "country"@.len());
    assert("musicbrainz_releasegroupid"@.len() != "country"@.len());
    assert("musicbrainz_albumartistid"@.len() != "country"@.len());
    assert("musicbrainz_release_group"@.len() != "country"@.len());
    assert("musicbrainz_artist"@.len() != "country"@.len());
    assert("discogs_release"@.len() != "country"@.len());
    assert("discogs_master"@.len() != "country"@.len());
    assert("genre"@.len() != "country"@.len());
    assert("styles"@.len() != "country"@.len());
    assert("musicbrainz_albumid"@.len() != "country"@.len());
    assert("musicbrainz_release"@.len() != "country"@.len());
    assert("albumartist"@.len() != "release_date"@.len());
    assert("album"@.len() != "release_date"@.len());
    assert("original_date"@.len() != "release_date"@.len());
    assert("date"@.len() != "release_date"@.len());
    assert("musicbrainz_releasegroupid"@.len() != "release_date"@.len());
    assert("musicbrainz_albumartistid"@.len() != "release_date"@.len());
    assert("musicbrainz_release_group"@.len() != "release_date"@.len());
    assert("musicbrainz_artist"@.len() != "release_date"@.len());
    assert("discogs_release"@.len() != "release_date"@.len());
    assert("discogs_master"@.len() != "release_date"@.len());
    assert("genre"@.len() != "release_date"@.len());
    assert("styles"@.len() != "release_date"@.len());
    assert("musicbrainz_albumid"@.len() != "release_date"@.len());
    assert("musicbrainz_release"@.len() != "release_date"@.len());
    assert("country"@.len() != "release_date"@.len());
    assert("albumartist"@.len() != "label"@.len());
    assert("album"@[0] != "label"@[0]);
    assert("original_date"@.len() != "label"@.len());
    assert("date"@.len() != "label"@.len());
    assert("musicbrainz_releasegroupid"@.len() != "label"@.len());
    assert("musicbrainz_albumartistid"@.len() != "label"@.len());
    assert("musicbrainz_release_group"@.len() != "label"@.len());
    assert("musicbrainz_artist"@.len() != "label"@.len());
    assert("discogs_release"@.len() != "label"@.len());
    assert("discogs_master"@.len() != "label"@.len());
    assert("genre"@[0] != "label"@[0]);
    assert("styles"@.len() != "label"@.len());
    assert("musicbrainz_albumid"@.len() != "label"@.len());
    assert("musicbrainz_release"@.len() != "label"@.len());
    assert("country"@.len() != "label"@.len());
    assert("release_date"@.len() != "label"@.len());
    assert("albumartist"@.len() != "catalognumber"@.len());
    assert("album"@.len() != "catalognumber"@.len());
    assert("original_date"@[0] != "catalognumber"@[0]);
    assert("date"@.len() != "catalognumber"@.len());
    assert("musicbrainz_releasegroupid"@.len() != "catalognumber"@.len());
    assert("musicbrainz_albumartistid"@.len() != "catalognumber"@.len());
    assert("musicbrainz_release_group"@.len() != "catalognumber"@.len());
    assert("musicbrainz_artist"@.len() != "catalognumber"@.len());
    assert("discogs_release"@.len() != "catalognumber"@.len());
    assert("discogs_master"@.len() != "catalognumber"@.len());
    assert("genre"@.len() != "catalognumber"@.len());
    assert("styles"@.len() != "catalognumber"@.len());
    assert("musicbrainz_albumid"@.len() != "catalognumber"@.len());
    assert("musicbrainz_release"@.len() != "catalognumber"@.len());
    assert("country"@.len() != "catalognumber"@.len());
    assert("release_date"@.len() != "catalognumber"@.len());
    assert("label"@.len() != "catalognumber"@.len());
    assert("albumartist"@[0] != "total_discs"@[0]);
    assert("album"@.len() != "total_discs"@.len());
    assert("original_date"@.len() != "total_discs"@.len());
    assert("date"@.len() != "total_discs"@.len());
    assert("musicbrainz_releasegroupid"@.len() != "total_discs"@.len());
    assert("musicbrainz_albumartistid"@.len() != "total_discs"@.len());
    assert("musicbrainz_release_group"@.len() != "total_discs"@.len());
    assert("musicbrainz_artist"@.len() != "total_discs"@.len());
    assert("discogs_release"@.len() != "total_discs"@.len());
    assert("discogs_master"@.len() != "total_discs"@.len());
    assert("genre"@.len() != "total_discs"@.len());
    assert("styles"@.len() != "total_discs"@.len());
    assert("musicbrainz_albumid"@.len() != "total_discs"@.len());
    assert("musicbrainz_release"@.len() != "total_discs"@.len());
    assert("country"@.len() != "total_discs"@.len());
    assert("release_date"@.len() != "total_discs"@.len());
    assert("label"@.len() != "total_discs"@.len());
    assert("catalognumber"@.len() != "total_discs"@.len());
}

/// The writes of a MusicBrainz and Discogs reply go to different places.
pub proof fn lemma_remote_updates_distinct(remote: JsonV)
    ensures
        distinct_places(remote_updates(remote)),
        all_album_sections(remote_updates(remote)),
{
    lemma_key_ranks();
    let rg = or_null(jget(remote, "release_group"@));
    let head = seq![
        ("metadata"@, "albumartist"@, JsonV::Str(rg_artist(rg))),
        ("metadata"@, "album"@, JsonV::Str(rg_title(rg))),
        ("metadata"@, "original_date"@, JsonV::Str(rg_first_date(rg))),
        ("metadata"@, "date"@, JsonV::Str(year_part(rg_first_date(rg)))),
        ("mbid"@, "musicbrainz_releasegroupid"@, or_null(jget(rg, "id"@))),
        ("mbid"@, "musicbrainz_albumartistid"@, rg_artist_id(rg)),
    ];
    assert(ranked_in(head, 0, 6));
    let l1 = link_update(jstr(jget(rg, "id"@)), "musicbrainz_release_group"@, "https://musicbrainz.org/release-group/"@);
    let l2 = link_update(jstr(Some(rg_artist_id(rg))), "musicbrainz_artist"@, "https://musicbrainz.org/artist/"@);
    lemma_ranked_link(jstr(jget(rg, "id"@)), "musicbrainz_release_group"@, "https://musicbrainz.org/release-group/"@, 6);
    lemma_ranked_link(jstr(Some(rg_artist_id(rg))), "musicbrainz_artist"@, "https://musicbrainz.org/artist/"@, 7);
    lemma_ranked_concat(head, l1, 0, 6, 7);
    lemma_ranked_concat(head + l1, l2, 0, 7, 8);
    assert(rg_updates(rg) == head + l1 + l2);
    let dgs = match jget(remote, "discogs"@) {
        Some(dg) => discogs_updates(dg),
        None => Seq::empty(),
    };
    match jget(remote, "discogs"@) {
        Some(dg) => {
            let urls = jget(dg, "urls"@);
            let src = match jget(dg, "master"@) {
                Some(m) => Some(m),
                None => jget(dg, "release"@),
            };
            lemma_ranked_opt(jat(urls, "release"@), "url"@, "discogs_release"@, 8);
            lemma_ranked_opt(jat(urls, "master"@), "url"@, "discogs_master"@, 9);
            lemma_ranked_opt(jat(src, "genres"@), "metadata"@, "genre"@, 10);
            lemma_ranked_opt(jat(src, "styles"@), "metadata"@, "styles"@, 11);
            let a = opt_update(jat(urls, "release"@), "url"@, "discogs_release"@);
            let b = opt_update(jat(urls, "master"@), "url"@, "discogs_master"@);
            let c = opt_update(jat(src, "genres"@), "metadata"@, "genre"@);
            let e = opt_update(jat(src, "styles"@), "metadata"@, "styles"@);
            lemma_ranked_concat(a, b, 8, 9, 10);
            lemma_ranked_concat(a + b, c, 8, 10, 11);
            lemma_ranked_concat(a + b + c, e, 8, 11, 12);
        },
        None => lemma_ranked_empty(8, 12),
    }
    let rels = match jget(remote, "release"@) {
        Some(r) => release_updates(r),
        None => Seq::empty(),
    };
    match jget(remote, "release"@) {
        Some(r) => {
            let label = jfirst(jget(r, "label-info"@));
            let a = seq![("mbid"@, "musicbrainz_albumid"@, or_null(jget(r, "id"@)))];
            lemma_ranked_single(("mbid"@, "musicbrainz_albumid"@, or_null(jget(r, "id"@))), 12);
            lemma_ranked_link(jstr(jget(r, "id"@)), "musicbrainz_release"@, "https://musicbrainz.org/release/"@, 13);
            lemma_ranked_opt(jget(r, "country"@), "metadata"@, "country"@, 14);
            lemma_ranked_opt(jget(r, "date"@), "metadata"@, "release_date"@, 15);
            lemma_ranked_opt(jat(jat(label, "label"@), "name"@), "metadata"@, "label"@, 16);
            lemma_ranked_opt(jat(label, "catalog-number"@), "metadata"@, "catalognumber"@, 17);
            let b = link_update(jstr(jget(r, "id"@)), "musicbrainz_release"@, "https://musicbrainz.org/release/"@);
            let c = opt_update(jget(r, "country"@), "metadata"@, "country"@);
            let e = opt_update(jget(r, "date"@), "metadata"@, "release_date"@);
            let f = opt_update(jat(jat(label, "label"@), "name"@), "metadata"@, "label"@);
            let g = opt_update(jat(label, "catalog-number"@), "metadata"@, "catalognumber"@);
            lemma_ranked_concat(a, b, 12, 13, 14);
            lemma_ranked_concat(a + b, c, 12, 14, 15);
            lemma_ranked_concat(a + b + c, e, 12, 15, 16);
            lemma_ranked_concat(a + b + c + e, f, 12, 16, 17);
            lemma_ranked_concat(a + b + c + e + f, g, 12, 17, 18);
            assert(release_head_updates(r) == a + b + c + e + f + g);
            match jget(r, "media"@) {
                Some(JsonV::Array(media)) => {
                    lemma_ranked_single(("info"@, "total_discs"@, JsonV::Number(decimal(media.len()))), 18);
                },
                _ => lemma_ranked_empty(18, 19),
            }
            lemma_ranked_concat(release_head_updates(r), media_count_update(r), 12, 18, 19);
        },
        None => lemma_ranked_empty(12, 19),
    }
    lemma_ranked_concat(rg_updates(rg), dgs, 0, 8, 12);
    lemma_ranked_concat(rg_updates(rg) + dgs, rels, 0, 12, 19);
    let ups = remote_updates(remote);
    assert(ups == rg_updates(rg) + dgs + rels);
    assert forall|i: int, j: int| 0 <= i < j < ups.len() implies (ups[i].0, ups[i].1) != (ups[j].0, ups[j].1) by {
        assert(remote_key_rank(ups[i].1) < remote_key_rank(ups[j].1));
    }
}

/// A write to a top-level key other than `album` leaves what is read under
/// `album`.
proof fn lemma_top_set_keeps_album(d: JsonV, key: Seq<char>, val: JsonV, p: Seq<Seq<char>>)
    requires
        indexable(d),
        key != "album"@,
        p.len() > 0,
        p[0] == "album"@,
    ensures
        jget_path(jset(d, key, val), p) == jget_path(d, p),
{
    lemma_jget_jset(d, key, val, "album"@);
}

/// After a MusicBrainz and Discogs reply was merged, each of its writes is
/// read back at its place under `album`.
pub proof fn lemma_remote_read_back(d: JsonV, remote: JsonV, i: int)
    requires
        album_shaped(d),
        0 <= i < remote_updates(remote).len(),
    ensures
        jget_path(
            remote_applied(d, remote),
            album_path(remote_updates(remote)[i].0, remote_updates(remote)[i].1),
        ) == Some(remote_updates(remote)[i].2),
{
    let ups = remote_updates(remote);
    lemma_remote_updates_distinct(remote);
    lemma_updates_read_back(d, ups, i);
    lemma_updates_shaped(d, ups);
    let d1 = apply_updates(d, ups);
    let p = album_path(ups[i].0, ups[i].1);
    match jget(remote, "release"@) {
        Some(r) => {
            let rg = or_null(jget(remote, "release_group"@));
            let x = JsonV::Array(release_tracks(r, rg_artist(rg), rg_artist_id(rg)));
            reveal_strlit("tracks");
            reveal_strlit("album");
            assert("tracks"@.len() != "album"@.len());
            lemma_top_set_keeps_album(d1, "tracks"@, x, p);
        },
        None => {},
    }
}

/// After a metadata file was merged, each entry of its `album` table (each
/// key once) is read back under `album`, in the part that `section_for`
/// names, and the number of discs under `album.info.total_discs`.
pub proof fn lemma_local_read_back(d: JsonV, meta: JsonV, es: Seq<(Seq<char>, JsonV)>, i: int)
    requires
        album_shaped(d),
        jget(meta, "album"@) == Some(JsonV::Object(es)),
        distinct_keys(es),
        0 <= i < es.len(),
    ensures
        jget_path(local_applied(d, meta), album_path(section_for(es[i].0), es[i].0)) == Some(es[i].1),
        jget_path(local_applied(d, meta), album_path("info"@, "total_discs"@)) == Some(
            JsonV::Number(
                decimal(
                    match jget(meta, "tracks"@) {
                        Some(JsonV::Array(ts)) => tracks_disc_max(1, ts),
                        _ => 1,
                    },
                ),
            ),
        ),
{
    let d1 = with_album_entries(d, es);
    lemma_album_entries_read_back(d, es, i);
    lemma_album_entries_shaped(d, es);
    let p = album_path(section_for(es[i].0), es[i].0);
    reveal_strlit("tracks");
    reveal_strlit("album");
    assert("tracks"@.len() != "album"@.len());
    let d2 = match jget(meta, "tracks"@) {
        Some(JsonV::Array(ts)) => {
            let x = JsonV::Array(ts.map_values(|t: JsonV| local_track(t)));
            lemma_top_set_keeps_album(d1, "tracks"@, x, p);
            lemma_top_set(d1, "tracks"@, x);
            jset(d1, "tracks"@, x)
        },
        _ => d1,
    };
    let discs = match jget(meta, "tracks"@) {
        Some(JsonV::Array(ts)) => tracks_disc_max(1, ts),
        _ => 1,
    };
    let v = JsonV::Number(decimal(discs));
    let q = album_path("info"@, "total_discs"@);
    lemma_album_set(d2, "info"@, "total_discs"@, v);
    lemma_set_path_get(d2, q, v);
    reveal_strlit("info");
    reveal_strlit("metadata");
    reveal_strlit("mbid");
    assert(p != q) by {
        assert(p[1] != q[1]) by {
            assert("info"@.len() != "metadata"@.len());
            assert("info"@[0] != "mbid"@[0]);
        }
    }
    lemma_set_path_other(d2, q, p, v);
}

/// A write under `album` leaves the track list as it was.
proof fn lemma_album_write_keeps_tracks(d: JsonV, section: Seq<char>, key: Seq<char>, val: JsonV)
    requires
        album_shaped(d),
        album_section(section),
    ensures
        jget(jset_path(d, album_path(section, key), val), "tracks"@) == jget(d, "tracks"@),
{
    lemma_album_set(d, section, key, val);
    let a2 = jset(jchild(d, "album"@), section, jset(jchild(jchild(d, "album"@), section), key, val));
    reveal_strlit("tracks");
    reveal_strlit("album");
    assert("tracks"@.len() != "album"@.len());
    lemma_jget_jset(d, "album"@, a2, "tracks"@);
}

/// Merging album entries leaves the track list as it was.
proof fn lemma_album_entries_keep_tracks(d: JsonV, es: Seq<(Seq<char>, JsonV)>)
    requires
        album_shaped(d),
    ensures
        jget(with_album_entries(d, es), "tracks"@) == jget(d, "tracks"@),
    decreases es.len(),
{
    if es.len() > 0 {
        lemma_album_entries_keep_tracks(d, es.drop_last());
        lemma_album_entries_shaped(d, es.drop_last());
        lemma_album_write_keeps_tracks(with_album_entries(d, es.drop_last()), section_for(es.last().0), es.last().0, es.last().1);
    }
}

/// Writes under `album` leave the track list as it was.
proof fn lemma_updates_keep_tracks(d: JsonV, ups: Seq<UpdateV>)
    requires
        album_shaped(d),
        all_album_sections(ups),
    ensures
        jget(apply_updates(d, ups), "tracks"@) == jget(d, "tracks"@),
    decreases ups.len(),
{
    if ups.len() > 0 {
        let rest = ups.drop_last();
        assert(all_album_sections(rest)) by {
            assert forall|i: int| 0 <= i < rest.len() implies album_section(#[trigger] rest[i].0) by {
                assert(rest[i] == ups[i]);
            }
        }
        lemma_updates_keep_tracks(d, rest);
        lemma_updates_shaped(d, rest);
        assert(album_section(ups[ups.len() - 1].0));
        lemma_album_write_keeps_tracks(apply_updates(d, rest), ups.last().0, ups.last().1, ups.last().2);
    }
}

/// A track of a metadata file, as the manifest holds it, can take keys.
proof fn lemma_local_track_indexable(t: JsonV)
    ensures
        indexable(local_track(t)),
{
    lemma_track_base();
    if let JsonV::Object(es) = t {
        lemma_track_entries_shaped(track_base(), es);
    }
}

/// Writing track entries keeps a track a track.
proof fn lemma_track_entries_shaped(t: JsonV, es: Seq<(Seq<char>, JsonV)>)
    requires
        track_shaped(t),
    ensures
        track_shaped(with_track_entries(t, es)),
    decreases es.len(),
{
    if es.len() > 0 {
        lemma_track_entries_shaped(t, es.drop_last());
        let k = es.last().0;
        assert(section_for(k) == "metadata"@ || section_for(k) == "mbid"@);
        lemma_track_set(with_track_entries(t, es.drop_last()), section_for(k), k, es.last().1);
    }
}

/// Every track of a release is an object.
proof fn lemma_media_tracks_objects(media: Seq<JsonV>, artist: Seq<char>, artist_id: JsonV)
    ensures
        forall|i: int| 0 <= i < media_tracks(media, artist, artist_id).len() ==> (#[trigger] media_tracks(media, artist, artist_id)[i]) is Object,
    decreases media.len(),
{
    if media.len() > 0 {
        lemma_media_tracks_objects(media.drop_last(), artist, artist_id);
        let a = media_tracks(media.drop_last(), artist, artist_id);
        let b = medium_tracks((media.len() - 1) as nat, media.last(), artist, artist_id);
        assert forall|i: int| 0 <= i < (a + b).len() implies (#[trigger] (a + b)[i]) is Object by {
            if i < a.len() {
                assert((a + b)[i] == a[i]);
            } else {
                assert((a + b)[i] == b[i - a.len()]);
            }
        }
    }
}

/// Merging a metadata file keeps every track able to take keys.
pub proof fn lemma_local_tracks_indexable(d: JsonV, meta: JsonV)
    requires
        album_shaped(d),
        tracks_indexable(d),
    ensures
        tracks_indexable(local_applied(d, meta)),
{
    let d1 = match jget(meta, "album"@) {
        Some(JsonV::Object(es)) => {
            lemma_album_entries_keep_tracks(d, es);
            lemma_album_entries_shaped(d, es);
            with_album_entries(d, es)
        },
        _ => d,
    };
    reveal_strlit("tracks");
    reveal_strlit("album");
    assert("tracks"@.len() != "album"@.len());
    let d2 = match jget(meta, "tracks"@) {
        Some(JsonV::Array(ts)) => {
            let lts = ts.map_values(|t: JsonV| local_track(t));
            let x = JsonV::Array(lts);
            lemma_jget_jset(d1, "tracks"@, x, "tracks"@);
            lemma_top_set(d1, "tracks"@, x);
            assert forall|i: int| 0 <= i < lts.len() implies indexable(#[trigger] lts[i]) by {
                lemma_local_track_indexable(ts[i]);
            }
            jset(d1, "tracks"@, x)
        },
        _ => d1,
    };
    let discs = match jget(meta, "tracks"@) {
        Some(JsonV::Array(ts)) => tracks_disc_max(1, ts),
        _ => 1,
    };
    lemma_album_write_keeps_tracks(d2, "info"@, "total_discs"@, JsonV::Number(decimal(discs)));
    assert(local_applied(d, meta) == jset_path(d2, album_path("info"@, "total_discs"@), JsonV::Number(decimal(discs))));
    assert(meta_tracks(local_applied(d, meta)) == meta_tracks(d2));
    assert(tracks_indexable(d2)) by {
        match jget(meta, "tracks"@) {
            Some(JsonV::Array(ts)) => {
                let lts = ts.map_values(|t: JsonV| local_track(t));
                assert(meta_tracks(d2) == lts);
            },
            _ => {
                assert(meta_tracks(d2) == meta_tracks(d));
            },
        }
    }
}

/// Merging a MusicBrainz and Discogs reply keeps every track able to take
/// keys.
pub proof fn lemma_remote_tracks_indexable(d: JsonV, remote: JsonV)
    requires
        album_shaped(d),
        tracks_indexable(d),
    ensures
        tracks_indexable(remote_applied(d, remote)),
{
    let ups = remote_updates(remote);
    lemma_remote_updates_distinct(remote);
    lemma_updates_keep_tracks(d, ups);
    lemma_updates_shaped(d, ups);
    let d1 = apply_updates(d, ups);
    match jget(remote, "release"@) {
        Some(r) => {
            let rg = or_null(jget(remote, "release_group"@));
            let ts = release_tracks(r, rg_artist(rg), rg_artist_id(rg));
            let x = JsonV::Array(ts);
            lemma_jget_jset(d1, "tracks"@, x, "tracks"@);
            if let Some(JsonV::Array(media)) = jget(r, "media"@) {
                lemma_media_tracks_objects(media, rg_artist(rg), rg_artist_id(rg));
            }
            assert(remote_applied(d, remote) == jset(d1, "tracks"@, x));
            assert(meta_tracks(remote_applied(d, remote)) == ts);
            assert forall|i: int| 0 <= i < ts.len() implies indexable(#[trigger] ts[i]) by {}
        },
        None => {
            assert(remote_applied(d, remote) == d1);
            assert(meta_tracks(d1) == meta_tracks(d));
        },
    }
}

/// How many tracks a medium of a reply lists.
pub open spec fn reply_track_count(medium: JsonV) -> nat {
    match jget(medium, "tracks"@) {
        Some(JsonV::Array(tl)) => tl.len(),
        _ => 0,
    }
}

/// How many tracks the media before position `m` list.
pub open spec fn reply_tracks_before(media: Seq<JsonV>, m: int) -> nat
    decreases m,
{
    if m <= 0 {
        0
    } else {
        reply_tracks_before(media, m - 1) + reply_track_count(media[m - 1])
    }
}

proof fn lemma_tracks_before_prefix(media: Seq<JsonV>, k: int)
    requires
        0 <= k < media.len(),
    ensures
        reply_tracks_before(media.drop_last(), k) == reply_tracks_before(media, k),
    decreases k,
{
    if k > 0 {
        lemma_tracks_before_prefix(media, k - 1);
        assert(media.drop_last()[k - 1] == media[k - 1]);
    }
}

/// Track `t` of medium `m` stands, in the media's track list, after the
/// tracks of the media before `m`, as that track of that medium.
proof fn lemma_media_track_at(media: Seq<JsonV>, artist: Seq<char>, artist_id: JsonV, m: int, tracks: Seq<JsonV>, t: int)
    requires
        0 <= m < media.len(),
        jget(media[m], "tracks"@) == Some(JsonV::Array(tracks)),
        0 <= t < tracks.len(),
    ensures
        media_tracks(media, artist, artist_id).len() == reply_tracks_before(media, media.len() as int),
        reply_tracks_before(media, m) + t < media_tracks(media, artist, artist_id).len(),
        media_tracks(media, artist, artist_id)[reply_tracks_before(media, m) + t] == remote_track(
            m as nat,
            t as nat,
            tracks[t],
            artist,
            artist_id,
        ),
    decreases media.len(),
{
    lemma_media_len(media, artist, artist_id);
    let prev = media.drop_last();
    let n = media.len() - 1;
    let head = media_tracks(prev, artist, artist_id);
    if m < n {
        assert(prev[m] == media[m]);
        lemma_media_track_at(prev, artist, artist_id, m, tracks, t);
        lemma_tracks_before_prefix(media, m);
        lemma_tracks_before_prefix(media, n);
        lemma_media_len(prev, artist, artist_id);
        assert(reply_tracks_before(media, m) + t < head.len()) by {
            lemma_tracks_before_mono(prev, m + 1, n);
        }
    } else {
        lemma_media_len(prev, artist, artist_id);
        lemma_tracks_before_prefix_all(media);
        assert(media.last() == media[m]);
    }
}

proof fn lemma_tracks_before_mono(media: Seq<JsonV>, a: int, b: int)
    requires
        0 <= a <= b <= media.len(),
    ensures
        reply_tracks_before(media, a) <= reply_tracks_before(media, b),
    decreases b - a,
{
    if a < b {
        lemma_tracks_before_mono(media, a, b - 1);
    }
}

proof fn lemma_tracks_before_prefix_all(media: Seq<JsonV>)
    requires
        media.len() > 0,
    ensures
        reply_tracks_before(media.drop_last(), media.len() - 1) == reply_tracks_before(media, media.len() - 1),
{
    lemma_tracks_before_prefix(media, media.len() - 1);
}

proof fn lemma_media_len(media: Seq<JsonV>, artist: Seq<char>, artist_id: JsonV)
    ensures
        media_tracks(media, artist, artist_id).len() == reply_tracks_before(media, media.len() as int),
    decreases media.len(),
{
    if media.len() > 0 {
        let prev = media.drop_last();
        lemma_media_len(prev, artist, artist_id);
        lemma_tracks_before_prefix_all(media);
        assert(media.last() == media[media.len() - 1]);
    }
}

/// The fields of a merged track: its numbers, its title, and its identifiers
/// read from the track's own `id` and from its recording's `id`.
proof fn lemma_remote_track_fields(m: nat, t: nat, track: JsonV, artist: Seq<char>, artist_id: JsonV)
    ensures
        jat(jget(remote_track(m, t, track, artist, artist_id), "mbid"@), "musicbrainz_releasetrackid"@) == Some(
            or_null(jget(track, "id"@)),
        ),
        jat(jget(remote_track(m, t, track, artist, artist_id), "mbid"@), "musicbrainz_trackid"@) == Some(
            or_null(jat(jget(track, "recording"@), "id"@)),
        ),
        jat(jget(remote_track(m, t, track, artist, artist_id), "metadata"@), "tracknumber"@) == Some(
            JsonV::Number(decimal(t + 1)),
        ),
        jat(jget(remote_track(m, t, track, artist, artist_id), "metadata"@), "discnumber"@) == Some(
            JsonV::Number(decimal(m + 1)),
        ),
        jat(jget(remote_track(m, t, track, artist, artist_id), "metadata"@), "title"@) == Some(
            match jget(track, "title"@) {
                Some(x) => x,
                None => JsonV::Str("Untitled"@),
            },
        ),
{
    reveal_strlit("metadata");
    reveal_strlit("mbid");
    reveal_strlit("tracknumber");
    reveal_strlit("discnumber");
    reveal_strlit("musicbrainz_trackid");
    reveal_strlit("musicbrainz_releasetrackid");
    let v = remote_track(m, t, track, artist, artist_id);
    let es = v->Object_0;
    lemma_entry_at(es, "metadata"@, 0);
    assert("metadata"@.len() == 8 && "mbid"@.len() == 4);
    assert(es[0].0 != "mbid"@);
    lemma_entry_at(es, "mbid"@, 1);
    let mb = es[1].1;
    let me = es[0].1;
    let mbe = mb->Object_0;
    let mee = me->Object_0;
    lemma_entry_at(mbe, "musicbrainz_trackid"@, 0);
    assert("musicbrainz_trackid"@.len() == 19 && "musicbrainz_releasetrackid"@.len() == 26);
    assert(mbe[0].0 != "musicbrainz_releasetrackid"@);
    lemma_entry_at(mbe, "musicbrainz_releasetrackid"@, 1);
    lemma_entry_at(mee, "tracknumber"@, 0);
    assert("tracknumber"@.len() == 11 && "discnumber"@.len() == 10);
    assert(mee[0].0 != "discnumber"@);
    lemma_entry_at(mee, "discnumber"@, 1);
    reveal_strlit("title");
    assert("title"@.len() == 5);
    assert(mee[0].0 != "title"@ && mee[1].0 != "title"@);
    lemma_entry_at(mee, "title"@, 2);
}

/// After a MusicBrainz reply with a release was merged, track `t` of medium
/// `m` of the release stands in the track list after the tracks of the media
/// before it, numbered `t + 1` on disc `m + 1`, titled as the track is
/// (`Untitled` without a title), its release-track id the track's own `id`
/// and its track id its recording's `id` (null when absent).
pub proof fn lemma_remote_track_ids(d: JsonV, remote: JsonV, media: Seq<JsonV>, m: int, tracks: Seq<JsonV>, t: int)
    requires
        album_shaped(d),
        jget(remote, "release"@) is Some,
        jget(or_null(jget(remote, "release"@)), "media"@) == Some(JsonV::Array(media)),
        0 <= m < media.len(),
        jget(media[m], "tracks"@) == Some(JsonV::Array(tracks)),
        0 <= t < tracks.len(),
    ensures
        jget(remote_applied(d, remote), "tracks"@) matches Some(JsonV::Array(ts)) && ts.len()
            == reply_tracks_before(media, media.len() as int) && reply_tracks_before(media, m) + t < ts.len() && ({
            let x = ts[reply_tracks_before(media, m) + t];
            &&& jat(jget(x, "mbid"@), "musicbrainz_releasetrackid"@) == Some(or_null(jget(tracks[t], "id"@)))
            &&& jat(jget(x, "mbid"@), "musicbrainz_trackid"@) == Some(
                or_null(jat(jget(tracks[t], "recording"@), "id"@)),
            )
            &&& jat(jget(x, "metadata"@), "tracknumber"@) == Some(JsonV::Number(decimal((t + 1) as nat)))
            &&& jat(jget(x, "metadata"@), "discnumber"@) == Some(JsonV::Number(decimal((m + 1) as nat)))
            &&& jat(jget(x, "metadata"@), "title"@) == Some(
                match jget(tracks[t], "title"@) {
                    Some(v) => v,
                    None => JsonV::Str("Untitled"@),
                },
            )
        }),
{
    let ups = remote_updates(remote);
    lemma_remote_updates_distinct(remote);
    lemma_updates_shaped(d, ups);
    let d1 = apply_updates(d, ups);
    let r = or_null(jget(remote, "release"@));
    let rg = or_null(jget(remote, "release_group"@));
    let a = rg_artist(rg);
    let aid = rg_artist_id(rg);
    let ts = release_tracks(r, a, aid);
    assert(ts == media_tracks(media, a, aid));
    lemma_jget_jset(d1, "tracks"@, JsonV::Array(ts), "tracks"@);
    assert(remote_applied(d, remote) == jset(d1, "tracks"@, JsonV::Array(ts)));
    lemma_media_track_at(media, a, aid, m, tracks, t);
    lemma_remote_track_fields(m as nat, t as nat, tracks[t], a, aid);
}

} // verus!
