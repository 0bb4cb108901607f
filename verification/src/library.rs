//! Decisions taken when built outputs are materialized: which old links go,
//! where new links point, how library folders are named, and how links into
//! the logical store are migrated to the physical one.
use vstd::prelude::*;
use crate::text::{
    chars_of, string_of, to_string, append_str, path_join, path_join_vec, path_join_str, is_prefix,
    starts_with, trim_start_matches, trim_start_matches_seq, trim_trailing_slashes, subrange_vec,
    map_char, replace_char, str_equal, occurs_at, occurs_in, matches_at, path_extension, extension_vec,
};
use crate::paths::{grounded, ground_logical_path, logical_store_prefix};
use crate::config::Format;

verus! {

/// A path starts with `base` component by component (`Path::starts_with`),
/// for paths without `.` components or doubled separators.
pub open spec fn path_starts_with(p: Seq<char>, base: Seq<char>) -> bool {
    let b = trim_trailing_slashes(base);
    if base.len() == 0 {
        true
    } else if b.len() == 0 {
        p.len() > 0 && p[0] == '/'
    } else {
        is_prefix(b, p) && (p.len() == b.len() || p[b.len() as int] == '/')
    }
}

fn trim_trailing_slashes_vec(s: &Vec<char>) -> (r: Vec<char>)
    ensures
        r@ == trim_trailing_slashes(s@),
{
    let mut j: usize = s.len();
    assert(s@.subrange(0, s@.len() as int) =~= s@);
    while j > 0 && s[j - 1] == '/'
        invariant
            j <= s.len(),
            trim_trailing_slashes(s@.subrange(0, j as int)) == trim_trailing_slashes(s@),
        decreases j,
    {
        assert(s@.subrange(0, j as int).drop_last() =~= s@.subrange(0, j - 1));
        j = j - 1;
    }
    let r = subrange_vec(s, 0, j);
    assert(trim_trailing_slashes(r@) == r@);
    r
}

/// `Path::starts_with`.
pub fn path_starts_with_str(p: &str, base: &str) -> (r: bool)
    ensures
        r == path_starts_with(p@, base@),
{
    let pv = chars_of(p);
    let bv = chars_of(base);
    if bv.len() == 0 {
        return true;
    }
    let b = trim_trailing_slashes_vec(&bv);
    if b.len() == 0 {
        return pv.len() > 0 && pv[0] == '/';
    }
    starts_with(&pv, &b) && (pv.len() == b.len() || pv[b.len()] == '/')
}

/// A path without the leading components that make up `base`
/// (`Path::strip_prefix`), for paths without `.` components or doubled
/// separators.
pub open spec fn strip_path_prefix(p: Seq<char>, base: Seq<char>) -> Option<Seq<char>> {
    if base.len() == 0 {
        Some(p)
    } else if path_starts_with(p, base) {
        Some(trim_start_matches(p.subrange(trim_trailing_slashes(base).len() as int, p.len() as int), seq!['/']))
    } else {
        None
    }
}

/// `Path::strip_prefix`.
pub fn strip_path_prefix_str(p: &str, base: &str) -> (r: Option<String>)
    ensures
        match r {
            Some(s) => strip_path_prefix(p@, base@) == Some(s@),
            None => strip_path_prefix(p@, base@) is None,
        },
{
    let pv = chars_of(p);
    let bv = chars_of(base);
    if bv.len() == 0 {
        return Some(string_of(pv.as_slice()));
    }
    if !path_starts_with_str(p, base) {
        return None;
    }
    let b = trim_trailing_slashes_vec(&bv);
    let rest = subrange_vec(&pv, b.len(), pv.len());
    let mut slash: Vec<char> = Vec::new();
    slash.push('/');
    assert(slash@ =~= seq!['/']);
    let r = trim_start_matches_seq(&rest, &slash);
    Some(string_of(r.as_slice()))
}

/// The name `metadata.toml`.
pub open spec fn metadata_toml() -> Seq<char> {
    "metadata.toml"@
}

/// A link in the album directory that a previous build of the format left:
/// its extension is the format's, or, for FLAC, it is `metadata.toml`.
pub open spec fn links_format_output(name: Seq<char>, fmt: Format) -> bool {
    path_extension(name) == Some(fmt.spec_name()) || (fmt == Format::Flac && name == metadata_toml())
}

/// Whether a link named `name` was left by a previous build of `fmt`.
pub fn is_format_output_link(name: &str, fmt: Format) -> (r: bool)
    ensures
        r == links_format_output(name@, fmt),
{
    let nv = chars_of(name);
    let fname = fmt.name();
    let fv = chars_of(fname.as_str());
    let ext_matches = match extension_vec(&nv) {
        Some(e) => crate::text::seq_equal(&e, &fv),
        None => false,
    };
    ext_matches || (fmt == Format::Flac && str_equal(name, "metadata.toml"))
}

/// A link in the album directory to be removed before outputs of `fmt` are
/// linked again: it points into the store and was left by a build of `fmt`.
pub open spec fn stale_output_link(name: Seq<char>, target: Seq<char>, store_path: Seq<char>, fmt: Format) -> bool {
    path_starts_with(target, store_path) && links_format_output(name, fmt)
}

/// Whether the link `name` (pointing to `target`) is removed before outputs
/// of `fmt` are linked again.
pub fn is_stale_output_link(name: &str, target: &str, store_path: &str, fmt: Format) -> (r: bool)
    ensures
        r == stale_output_link(name@, target@, store_path@, fmt),
{
    path_starts_with_str(target, store_path) && is_format_output_link(name, fmt)
}

/// The prefix `/nix/store` (without a trailing slash).
pub open spec fn logical_store_dir() -> Seq<char> {
    seq!['/', 'n', 'i', 'x', '/', 's', 't', 'o', 'r', 'e']
}

/// Where a new link to an output entry points: a link target in the logical
/// store is grounded in the physical store; a relative target is taken in the
/// output directory; an absolute target elsewhere leaves the entry itself. An
/// entry that is no link is grounded when it lies in the logical store.
pub open spec fn grounded_link_source(entry: Seq<char>, link_target: Option<Seq<char>>, store_dir: Seq<char>, store_path: Seq<char>) -> Seq<char> {
    match link_target {
        Some(t) => if is_prefix(logical_store_dir(), t) {
            grounded(t, store_path)
        } else if !(t.len() > 0 && t[0] == '/') {
            path_join(store_dir, t)
        } else {
            entry
        },
        None => if is_prefix(logical_store_dir(), entry) {
            grounded(entry, store_path)
        } else {
            entry
        },
    }
}

/// Where a new link to an output entry points.
pub fn grounded_link_source_of(entry: &str, link_target: Option<&str>, store_dir: &str, store_path: &str) -> (r: String)
    ensures
        r@ == grounded_link_source(entry@, match link_target { Some(t) => Some(t@), None => None }, store_dir@, store_path@),
{
    let prefix = chars_of("/nix/store");
    proof {
        reveal_strlit("/nix/store");
    }
    assert(prefix@ =~= logical_store_dir());
    match link_target {
        Some(t) => {
            let tv = chars_of(t);
            if starts_with(&tv, &prefix) {
                ground_logical_path(to_string(t), store_path)
            } else if !(tv.len() > 0 && tv[0] == '/') {
                path_join_str(store_dir, t)
            } else {
                to_string(entry)
            }
        },
        None => {
            let ev = chars_of(entry);
            if starts_with(&ev, &prefix) {
                ground_logical_path(to_string(entry), store_path)
            } else {
                to_string(entry)
            }
        },
    }
}

/// Where a new link to an output entry points when links keep logical store
/// paths: the entry's own link target, else the entry's place in the store
/// made absolute from the root, else the entry itself.
pub open spec fn logical_link_source(entry: Seq<char>, link_target: Option<Seq<char>>, store_path: Seq<char>) -> Seq<char> {
    match link_target {
        Some(t) => t,
        None => match strip_path_prefix(entry, store_path) {
            Some(rest) => path_join(seq!['/'], rest),
            None => entry,
        },
    }
}

/// Where a new link to an output entry points when links keep logical store
/// paths.
pub fn logical_link_source_of(entry: &str, link_target: Option<&str>, store_path: &str) -> (r: String)
    ensures
        r@ == logical_link_source(entry@, match link_target { Some(t) => Some(t@), None => None }, store_path@),
{
    match link_target {
        Some(t) => to_string(t),
        None => match strip_path_prefix_str(entry, store_path) {
            Some(rest) => {
                let r = path_join_str("/", rest.as_str());
                proof {
                    reveal_strlit("/");
                }
                assert("/"@ =~= seq!['/']);
                r
            },
            None => to_string(entry),
        },
    }
}

/// The physical path of a built output whose logical path is `logical`: the
/// logical path, without its root, under the store path.
pub open spec fn physical_output_path(store_path: Seq<char>, logical: Seq<char>) -> Seq<char> {
    if logical.len() > 0 && logical[0] == '/' {
        path_join(store_path, trim_start_matches(logical, seq!['/']))
    } else {
        path_join(store_path, logical)
    }
}

/// The physical path of a built output.
pub fn physical_output_path_of(store_path: &str, logical: &str) -> (r: String)
    ensures
        r@ == physical_output_path(store_path@, logical@),
{
    let lv = chars_of(logical);
    let sv = chars_of(store_path);
    if lv.len() > 0 && lv[0] == '/' {
        let mut slash: Vec<char> = Vec::new();
        slash.push('/');
        assert(slash@ =~= seq!['/']);
        let rest = trim_start_matches_seq(&lv, &slash);
        let r = path_join_vec(&sv, &rest);
        string_of(r.as_slice())
    } else {
        let r = path_join_vec(&sv, &lv);
        string_of(r.as_slice())
    }
}

/// The link that keeps a built output alive:
/// `gcroots/albums/<album>-<hash>-<format>` in the store.
pub open spec fn output_link_path(store_path: Seq<char>, album_name: Seq<char>, truncated_hash: Seq<char>, fmt: Format) -> Seq<char> {
    path_join(path_join(path_join(store_path, "gcroots"@), "albums"@), album_name + seq!['-'] + truncated_hash + seq!['-'] + fmt.spec_name())
}

/// The link that keeps a built output alive.
pub fn output_link_path_of(store_path: &str, album_name: &str, truncated_hash: &str, fmt: Format) -> (r: String)
    ensures
        r@ == output_link_path(store_path@, album_name@, truncated_hash@, fmt),
{
    let a = path_join_str(store_path, "gcroots");
    let b = path_join_str(a.as_str(), "albums");
    let mut name = chars_of(album_name);
    name.push('-');
    append_str(&mut name, truncated_hash);
    name.push('-');
    let f = fmt.name();
    append_str(&mut name, f.as_str());
    let n = string_of(name.as_slice());
    assert(n@ =~= album_name@ + seq!['-'] + truncated_hash@ + seq!['-'] + fmt.spec_name());
    path_join_str(b.as_str(), n.as_str())
}

/// The name of an album's folder in a library: `<artist> - <album>`, or the
/// album alone when the artist is missing, empty or `Unknown Artist`; the
/// album is `Unknown Album` when missing; every `/` made `_`.
pub open spec fn library_folder_name(albumartist: Option<Seq<char>>, album: Option<Seq<char>>) -> Seq<char> {
    let artist_raw = match albumartist {
        Some(a) => a,
        None => Seq::<char>::empty(),
    };
    let artist = if artist_raw.len() == 0 { "Unknown Artist"@ } else { artist_raw };
    let album_name = match album {
        Some(a) => a,
        None => "Unknown Album"@,
    };
    if artist == "Unknown Artist"@ {
        map_char(album_name, '/', '_')
    } else {
        map_char(artist + " - "@ + album_name, '/', '_')
    }
}

/// The name of an album's folder in a library, from the `album.albumartist`
/// and `album.album` entries of its metadata.
pub fn get_library_folder_name(albumartist: Option<&str>, album: Option<&str>) -> (r: String)
    ensures
        r@ == library_folder_name(match albumartist { Some(a) => Some(a@), None => None }, match album {
            Some(a) => Some(a@),
            None => None,
        }),
{
    let artist_raw = match albumartist {
        Some(a) => chars_of(a),
        None => Vec::new(),
    };
    let unknown = chars_of("Unknown Artist");
    let artist = if artist_raw.len() == 0 { unknown.clone() } else { artist_raw };
    let album_name = match album {
        Some(a) => chars_of(a),
        None => chars_of("Unknown Album"),
    };
    let full = if crate::text::seq_equal(&artist, &unknown) {
        album_name
    } else {
        let mut f = artist.clone();
        append_str(&mut f, " - ");
        crate::text::append_vec(&mut f, &album_name);
        f
    };
    let r = replace_char(&full, '/', '_');
    string_of(r.as_slice())
}

/// What `toml::from_str::<toml::Value>` makes of a text, read at
/// `<table>.<key>`: none when the text is not TOML; else the string there,
/// when there is one (`Value::get`, `Value::get`, `Value::as_str`).
pub uninterp spec fn toml_table_str(text: Seq<char>, table: Seq<char>, key: Seq<char>) -> Option<Option<Seq<char>>>;

/// `toml::from_str::<toml::Value>`, then the string at `<table>.<key>`:
/// an error when the text is not TOML; a function of the three texts alone.
#[verifier::external_body]
fn toml_table_str_of(text: &str, table: &str, key: &str) -> (r: Result<Option<String>, ()>)
    ensures
        match r {
            Ok(v) => toml_table_str(text@, table@, key@) == Some(
                match v {
                    Some(s) => Some(s@),
                    None => None::<Seq<char>>,
                },
            ),
            Err(_) => toml_table_str(text@, table@, key@) is None,
        },
{
    let parsed: toml::Value = toml::from_str(text).map_err(|_| ())?;
    Ok(parsed.get(table).and_then(|t| t.get(key)).and_then(|v| v.as_str()).map(str::to_string))
}

/// The name of an album's folder in a library, from the text of its
/// `metadata.toml`: its `album.albumartist` and `album.album` strings. Fails
/// when the text is not TOML.
pub fn library_folder_from_toml(text: &str) -> (r: Result<String, ()>)
    ensures
        r is Ok <==> (toml_table_str(text@, "album"@, "albumartist"@) is Some && toml_table_str(
            text@,
            "album"@,
            "album"@,
        ) is Some),
        r matches Ok(f) ==> f@ == library_folder_name(
            toml_table_str(text@, "album"@, "albumartist"@).unwrap(),
            toml_table_str(text@, "album"@, "album"@).unwrap(),
        ),
{
    let artist = match toml_table_str_of(text, "album", "albumartist") {
        Ok(a) => a,
        Err(_) => return Err(()),
    };
    let album = match toml_table_str_of(text, "album", "album") {
        Ok(a) => a,
        Err(_) => return Err(()),
    };
    let a1 = match &artist {
        Some(s) => Some(s.as_str()),
        None => None,
    };
    let a2 = match &album {
        Some(s) => Some(s.as_str()),
        None => None,
    };
    Ok(get_library_folder_name(a1, a2))
}

/// A library folder name holds no `/`.
pub proof fn lemma_library_folder_name_no_slash(albumartist: Option<Seq<char>>, album: Option<Seq<char>>)
    ensures
        !library_folder_name(albumartist, album).contains('/'),
{
    let r = library_folder_name(albumartist, album);
    if r.contains('/') {
        let k = choose|k: int| 0 <= k < r.len() && r[k] == '/';
    }
}

/// Position of the first occurrence of `p` in `s`, or -1.
pub open spec fn find_seq(s: Seq<char>, p: Seq<char>) -> int
    decreases s.len(),
{
    if is_prefix(p, s) {
        0
    } else if s.len() == 0 {
        -1
    } else {
        let k = find_seq(s.subrange(1, s.len() as int), p);
        if k < 0 {
            -1
        } else {
            k + 1
        }
    }
}

proof fn lemma_find_seq(s: Seq<char>, p: Seq<char>)
    ensures
        -1 <= find_seq(s, p) <= s.len(),
        find_seq(s, p) >= 0 ==> occurs_at(s, p, find_seq(s, p)),
        forall|k: int| 0 <= k < s.len() + 1 && (find_seq(s, p) < 0 || k < find_seq(s, p)) ==> !occurs_at(s, p, k),
    decreases s.len(),
{
    if is_prefix(p, s) {
        assert(s.subrange(0, p.len() as int) == p);
    } else if s.len() > 0 {
        let t = s.subrange(1, s.len() as int);
        lemma_find_seq(t, p);
        if find_seq(t, p) >= 0 {
            let j = find_seq(t, p);
            assert(s.subrange(j + 1, j + 1 + p.len()) =~= t.subrange(j, j + p.len()));
        }
        assert forall|k: int| 0 <= k < s.len() + 1 && (find_seq(s, p) < 0 || k < find_seq(s, p)) implies !occurs_at(s, p, k) by {
            if k == 0 {
                if occurs_at(s, p, 0) {
                    assert(s.subrange(0, p.len() as int) == p);
                }
            } else if occurs_at(s, p, k) {
                assert(t.subrange(k - 1, k - 1 + p.len()) =~= s.subrange(k, k + p.len()));
                assert(occurs_at(t, p, k - 1));
            }
        }
    } else {
        assert forall|k: int| 0 <= k < s.len() + 1 implies !occurs_at(s, p, k) by {
            if occurs_at(s, p, k) {
                assert(s.subrange(0, p.len() as int) =~= p);
            }
        }
    }
}

fn find_seq_vec(s: &Vec<char>, p: &Vec<char>) -> (r: Option<usize>)
    ensures
        match r {
            Some(i) => i as int == find_seq(s@, p@),
            None => find_seq(s@, p@) < 0,
        },
{
    proof { lemma_find_seq(s@, p@); }
    let mut i: usize = 0;
    loop
        invariant
            i <= s.len(),
            forall|k: int| 0 <= k < i ==> !occurs_at(s@, p@, k),
            -1 <= find_seq(s@, p@) <= s@.len(),
            find_seq(s@, p@) >= 0 ==> occurs_at(s@, p@, find_seq(s@, p@)),
            forall|k: int| 0 <= k < s@.len() + 1 && (find_seq(s@, p@) < 0 || k < find_seq(s@, p@)) ==> !occurs_at(s@, p@, k),
        decreases s.len() - i,
    {
        if matches_at(s, i, p) {
            return Some(i);
        }
        if i == s.len() {
            return None;
        }
        i = i + 1;
    }
}

/// The physical target of a link that points into the logical store: what
/// follows the first `/nix/store/` in the target, under `nix/store` in the
/// store path; none for a target outside the logical store.
pub open spec fn migrated_link_target(target: Seq<char>, store_path: Seq<char>) -> Option<Seq<char>> {
    let i = find_seq(target, logical_store_prefix());
    if i < 0 {
        None
    } else {
        Some(path_join(path_join(store_path, "nix/store"@), target.subrange(i + 11, target.len() as int)))
    }
}

/// The physical target that a link into the logical store is migrated to.
pub fn migrate_link_target(target: &str, store_path: &str) -> (r: Option<String>)
    ensures
        match r {
            Some(s) => migrated_link_target(target@, store_path@) == Some(s@),
            None => migrated_link_target(target@, store_path@) is None,
        },
{
    let tv = chars_of(target);
    let pat = chars_of("/nix/store/");
    proof {
        reveal_strlit("/nix/store/");
        lemma_find_seq(tv@, logical_store_prefix());
    }
    assert(pat@ =~= logical_store_prefix());
    match find_seq_vec(&tv, &pat) {
        None => None,
        Some(i) => {
            assert(i + 11 <= tv.len());
            let suffix = subrange_vec(&tv, i + 11, tv.len());
            let base = path_join_str(store_path, "nix/store");
            let bv = chars_of(base.as_str());
            let r = path_join_vec(&bv, &suffix);
            Some(string_of(r.as_slice()))
        },
    }
}

/// `/nix/store/` repeats itself at no shift below 10.
proof fn lemma_store_prefix_no_period(d: int)
    requires
        1 <= d <= 9,
    ensures
        exists|t: int| 0 <= t < 11 - d && #[trigger] logical_store_prefix()[d + t] != logical_store_prefix()[t],
{
    let p = logical_store_prefix();
    if d == 4 {
        assert(p[5int] != p[1int]);
        assert(p[d + 1] != p[1int]);
    } else {
        assert(p[d + 0] != p[0int]);
    }
}

/// In `pre + /nix/store/ + suf`, where `pre` holds no `/nix/store`, the first
/// `/nix/store/` is the one after `pre`.
proof fn lemma_first_store_prefix(pre: Seq<char>, suf: Seq<char>)
    requires
        !occurs_in(pre, logical_store_dir()),
    ensures
        find_seq(pre + logical_store_prefix() + suf, logical_store_prefix()) == pre.len(),
{
    let p = logical_store_prefix();
    let m = pre + p + suf;
    let b = pre.len() as int;
    assert(m.subrange(b, b + 11) =~= p);
    assert(occurs_at(m, p, b));
    assert forall|k: int| 0 <= k < b implies !occurs_at(m, p, k) by {
        if occurs_at(m, p, k) {
            assert forall|t: int| 0 <= t < 11 implies #[trigger] m[k + t] == p[t] by {
                assert(m.subrange(k, k + 11)[t] == m[k + t]);
            }
            if k + 10 <= b {
                assert(pre.subrange(k, k + 10) =~= logical_store_dir()) by {
                    assert forall|t: int| 0 <= t < 10 implies pre[k + t] == logical_store_dir()[t] by {
                        assert(m[k + t] == pre[k + t]);
                    }
                }
                assert(occurs_at(pre, logical_store_dir(), k));
            } else {
                let d = b - k;
                assert forall|t: int| 0 <= t < 11 - d implies #[trigger] p[d + t] == p[t] by {
                    assert(m[k + (d + t)] == p[d + t]);
                    assert(m[b + t] == p[t]);
                }
                lemma_store_prefix_no_period(d);
                let t = choose|t: int| 0 <= t < 11 - d && #[trigger] p[d + t] != p[t];
                assert(p[d + t] == p[t]);
            }
        }
    }
    lemma_find_seq(m, p);
}

/// Migrating a target that a migration produced leaves it as it is (it is
/// found in the logical store no more, or is migrated to itself), when the
/// store path holds no `/nix/store`, unless the produced target still holds a
/// `/nix/store/`: what follows the first `/nix/store/` of the original target
/// starts with `/` and holds another one, or the store path is empty and that
/// rest, after a `/`, holds one.
pub proof fn lemma_migration_idempotent(target: Seq<char>, store_path: Seq<char>)
    requires
        !occurs_in(store_path, logical_store_dir()),
        find_seq(target, logical_store_prefix()) >= 0,
        ({
            let suf = target.subrange(find_seq(target, logical_store_prefix()) + 11, target.len() as int);
            &&& (suf.len() > 0 && suf[0] == '/') ==> !occurs_in(suf, logical_store_prefix())
            &&& (store_path.len() == 0 && !(suf.len() > 0 && suf[0] == '/')) ==> !occurs_in(
                seq!['/'] + suf,
                logical_store_prefix(),
            )
        }),
    ensures
        migrated_link_target(target, store_path) matches Some(m) && (migrated_link_target(m, store_path) is None
            || migrated_link_target(m, store_path) == Some(m)),
{
    reveal_strlit("nix/store");
    let p = logical_store_prefix();
    let i = find_seq(target, p);
    let suf = target.subrange(i + 11, target.len() as int);
    let ns = "nix/store"@;
    assert(ns =~= seq!['n', 'i', 'x', '/', 's', 't', 'o', 'r', 'e']);
    let base = path_join(store_path, ns);
    let m = path_join(base, suf);
    assert(migrated_link_target(target, store_path) == Some(m));
    if suf.len() > 0 && suf[0] == '/' {
        assert(m == suf);
        lemma_find_seq(suf, p);
        if find_seq(suf, p) >= 0 {
            assert(occurs_at(suf, p, find_seq(suf, p)));
        }
        assert(migrated_link_target(m, store_path) is None);
    } else if store_path.len() == 0 {
        let w = seq!['/'] + suf;
        assert(base == ns);
        assert(m =~= ns + w);
        lemma_find_seq(m, p);
        if find_seq(m, p) >= 0 {
            let k = find_seq(m, p);
            assert(occurs_at(m, p, k));
            if k >= 9 {
                assert(w.subrange(k - 9, k + 2) =~= m.subrange(k, k + 11));
                assert(occurs_at(w, p, k - 9));
            } else {
                assert(m.subrange(k, k + 11)[0] == m[k]);
                assert(m.subrange(k, k + 11)[1] == m[k + 1]);
                assert(m[k] == '/' && m[k + 1] == 'n');
                assert(m[9] == '/');
                assert(false);
            }
        }
        assert(migrated_link_target(m, store_path) is None);
    } else {
        let b: int = if store_path.last() == '/' {
            store_path.len() - 1
        } else {
            store_path.len() as int
        };
        let pre = store_path.subrange(0, b);
        assert(m =~= pre + p + suf) by {
            if store_path.last() == '/' {
                assert(store_path =~= pre + seq!['/']);
                assert(base =~= store_path + ns);
            } else {
                assert(store_path =~= pre);
                assert(base =~= store_path + seq!['/'] + ns);
            }
            assert(base.last() == 'e');
        }
        assert(!occurs_in(pre, logical_store_dir())) by {
            if occurs_in(pre, logical_store_dir()) {
                let k = choose|k: int| occurs_at(pre, logical_store_dir(), k);
                assert(store_path.subrange(k, k + 10) =~= pre.subrange(k, k + 10));
                assert(occurs_at(store_path, logical_store_dir(), k));
            }
        }
        lemma_first_store_prefix(pre, suf);
        assert(find_seq(m, p) == b);
        assert(m.subrange(b + 11, m.len() as int) =~= suf);
    }
}

/// The `PATH` given to commands: the toolchain's `bin` directory
/// (`gcroots/profiles/env/bin` in the store), then the inherited `PATH`.
pub open spec fn injected_path(store_path: Seq<char>, inherited: Seq<char>) -> Seq<char> {
    path_join(store_path, "gcroots/profiles/env/bin"@) + seq![':'] + inherited
}

/// The `PATH` given to commands.
pub fn injected_path_of(store_path: &str, inherited: &str) -> (r: String)
    ensures
        r@ == injected_path(store_path@, inherited@),
{
    let b = path_join_str(store_path, "gcroots/profiles/env/bin");
    let mut v = chars_of(b.as_str());
    v.push(':');
    append_str(&mut v, inherited);
    string_of(v.as_slice())
}

} // verus!
