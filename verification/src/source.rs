//! Where the source of an album or film comes from: its internal name, the
//! link that pins it in the store, and the directory that holds its files.
use vstd::prelude::*;
use crate::text::{chars_of, string_of, append_str, path_join, path_join_vec, path_join_str, starts_with, trim_start_matches, trim_start_matches_seq, is_prefix};
use crate::names::{sanitize_source_name, sanitized, nix32_truncated, get_nix32_truncate};
use crate::paths::logical_store_prefix;

verus! {

/// Everything the resolution of a source found out.
pub struct SourceResolution {
    /// The directory that holds the source's files.
    pub origin_path: String,
    /// The source is pinned in the store.
    pub is_in_store: bool,
    /// The name of the link that pins the source.
    pub link_name: String,
    /// The source's own name.
    pub internal_name: String,
    /// The sanitized form of the internal name.
    pub sanitized_name: String,
    /// The truncated hash of the source.
    pub truncated_hash: String,
    /// The album's name.
    pub album_name: String,
}

/// What was read from the manifest, the torrent and the store for a source.
pub struct SourceFacts {
    /// The manifest's `name` (empty when it could not be evaluated).
    pub album_name: String,
    /// The kind of source (`torrent`, `web`), when one was given.
    pub source_type: Option<String>,
    /// The manifest's `source.<type>.name` (empty when unset).
    pub source_name_attr: String,
    /// The name found in the torrent file (empty when none was read).
    pub detected_torrent_name: String,
    /// The manifest's `source.<type>.hash` (empty when unset or not
    /// evaluated; not read without a source type).
    pub source_hash: String,
    /// The output of `nix hash to-base32` for the source hash, when that
    /// command succeeded.
    pub converted_hash: Option<String>,
    /// The physical target of the link that pins the source, when it exists.
    pub store_origin: Option<String>,
    /// The base directory of origins.
    pub origin_base_path: String,
    /// The manifest's `origin.path` (empty when unset or not evaluated).
    pub origin_path_field: String,
}

/// The word `torrent`.
pub open spec fn torrent_word() -> Seq<char> {
    seq!['t', 'o', 'r', 'r', 'e', 'n', 't']
}

/// The source's name: the manifest's source name, else the name found in the
/// torrent, else the album's name.
pub open spec fn internal_name_of(f: SourceFacts) -> Seq<char> {
    if f.source_name_attr@.len() > 0 {
        f.source_name_attr@
    } else if f.detected_torrent_name@.len() > 0 {
        f.detected_torrent_name@
    } else {
        f.album_name@
    }
}

/// The hash of the source: its `source.<type>.hash`, and none without a
/// source type.
pub open spec fn source_hash_of(f: SourceFacts) -> Seq<char> {
    if f.source_type is Some {
        f.source_hash@
    } else {
        Seq::empty()
    }
}

/// The truncated hash of the source (see `get_nix32_truncate`).
pub open spec fn truncated_hash_of(f: SourceFacts) -> Seq<char> {
    nix32_truncated(
        source_hash_of(f),
        match f.converted_hash {
            Some(c) => Some(c@),
            None => None,
        },
    )
}

/// Without a source type, or with an empty source hash, the truncated hash is
/// `nohash`.
pub proof fn lemma_no_source_hash(f: SourceFacts)
    requires
        f.source_type is None || f.source_hash@.len() == 0,
    ensures
        truncated_hash_of(f) == "nohash"@,
{
}

/// The link name of a source.
pub open spec fn link_name_of(f: SourceFacts) -> Seq<char> {
    sanitized(internal_name_of(f)) + seq!['-'] + truncated_hash_of(f)
}

/// The source is a torrent.
pub open spec fn is_torrent(source_type: Option<String>) -> bool {
    match source_type {
        Some(t) => t@ == torrent_word(),
        None => false,
    }
}

/// The directory that holds the source's files: the pinned store copy when
/// there is one; for a torrent, `torrent/<link name>` under the origin base;
/// otherwise the manifest's `origin.path` when set, else the album's name
/// under the origin base.
pub open spec fn origin_path_of(f: SourceFacts) -> Seq<char> {
    match f.store_origin {
        Some(p) => p@,
        None => if is_torrent(f.source_type) {
            path_join(path_join(f.origin_base_path@, torrent_word()), link_name_of(f))
        } else if f.origin_path_field@.len() > 0 {
            f.origin_path_field@
        } else {
            path_join(f.origin_base_path@, f.album_name@)
        },
    }
}

fn torrent_vec() -> (r: Vec<char>)
    ensures
        r@ == torrent_word(),
{
    let r = chars_of("torrent");
    proof {
        reveal_strlit("torrent");
    }
    assert(r@ =~= torrent_word());
    r
}

/// Whether the kind of source is `torrent`.
pub fn source_is_torrent(source_type: &Option<String>) -> (r: bool)
    ensures
        r == is_torrent(*source_type),
{
    match source_type {
        Some(t) => {
            let v = chars_of(t.as_str());
            let w = torrent_vec();
            crate::text::seq_equal(&v, &w)
        },
        None => false,
    }
}

/// Resolves a source from what was found out about it.
pub fn resolve_source_origin(f: &SourceFacts) -> (r: SourceResolution)
    ensures
        r.internal_name@ == internal_name_of(*f),
        r.sanitized_name@ == sanitized(internal_name_of(*f)),
        r.truncated_hash@ == truncated_hash_of(*f),
        r.link_name@ == link_name_of(*f),
        r.is_in_store == f.store_origin is Some,
        r.origin_path@ == origin_path_of(*f),
        r.album_name@ == f.album_name@,
{
    let internal_name = if chars_of(f.source_name_attr.as_str()).len() > 0 {
        f.source_name_attr.clone()
    } else if chars_of(f.detected_torrent_name.as_str()).len() > 0 {
        f.detected_torrent_name.clone()
    } else {
        f.album_name.clone()
    };
    let sanitized_name = sanitize_source_name(internal_name.as_str());
    let hash = match &f.source_type {
        Some(_) => f.source_hash.clone(),
        None => crate::text::to_string(""),
    };
    let converted = match &f.converted_hash {
        Some(c) => Some(c.as_str()),
        None => None,
    };
    let truncated_hash = get_nix32_truncate(hash.as_str(), converted);
    proof {
        reveal_strlit("");
        assert(""@ =~= Seq::<char>::empty());
    }
    assert(hash@ == source_hash_of(*f));
    let link_name = crate::names::source_link_name(sanitized_name.as_str(), truncated_hash.as_str());
    let is_in_store = f.store_origin.is_some();
    let origin_path = match &f.store_origin {
        Some(p) => p.clone(),
        None => if source_is_torrent(&f.source_type) {
            let base = path_join_str(f.origin_base_path.as_str(), "torrent");
            proof {
                reveal_strlit("torrent");
            }
            assert("torrent"@ =~= torrent_word());
            path_join_str(base.as_str(), link_name.as_str())
        } else if chars_of(f.origin_path_field.as_str()).len() > 0 {
            f.origin_path_field.clone()
        } else {
            path_join_str(f.origin_base_path.as_str(), f.album_name.as_str())
        },
    };
    SourceResolution {
        origin_path,
        is_in_store,
        link_name,
        internal_name,
        sanitized_name,
        truncated_hash,
        album_name: f.album_name.clone(),
    }
}

/// The manifest field `source.<type>.<leaf>`.
pub fn source_field(source_type: &str, leaf: &str) -> (r: String)
    ensures
        r@ == "source."@ + source_type@ + seq!['.'] + leaf@,
{
    let mut out: Vec<char> = chars_of("source.");
    append_str(&mut out, source_type);
    out.push('.');
    append_str(&mut out, leaf);
    string_of(out.as_slice())
}

/// Whether the name of the torrent must be read from the torrent file: the
/// source is a torrent and the manifest gives no source name.
pub fn needs_torrent_name(source_type: &Option<String>, source_name_attr: &str) -> (r: bool)
    ensures
        r == (is_torrent(*source_type) && source_name_attr@.len() == 0),
{
    source_is_torrent(source_type) && chars_of(source_name_attr).len() == 0
}

/// Whether the manifest's `origin.path` decides the origin: the source is
/// neither pinned nor a torrent.
pub fn needs_origin_path_field(source_type: &Option<String>, pinned: bool) -> (r: bool)
    ensures
        r == (!pinned && !is_torrent(*source_type)),
{
    !pinned && !source_is_torrent(source_type)
}

/// The path of the link that pins a source: `gcroots/source/<link name>` in
/// the store.
pub open spec fn source_link_path_of(store_path: Seq<char>, link_name: Seq<char>) -> Seq<char> {
    path_join(path_join(path_join(store_path, "gcroots"@), "source"@), link_name)
}

/// The path of the link that pins a source.
pub fn source_link_path(store_path: &str, link_name: &str) -> (r: String)
    ensures
        r@ == source_link_path_of(store_path@, link_name@),
{
    let a = path_join_str(store_path, "gcroots");
    let b = path_join_str(a.as_str(), "source");
    path_join_str(b.as_str(), link_name)
}

/// The physical path of a pinned source: a link target in the logical store
/// (`/nix/store/...`) lies, without its leading `/`, under the store path;
/// any other target pins nothing.
pub open spec fn pinned_store_target(logical: Seq<char>, store_path: Seq<char>) -> Option<Seq<char>> {
    if is_prefix(logical_store_prefix(), logical) {
        Some(path_join(store_path, trim_start_matches(logical, seq!['/'])))
    } else {
        None
    }
}

/// The physical path of a pinned source, from the target of its link; the
/// caller checks that it exists.
pub fn pinned_store_path(logical: &str, store_path: &str) -> (r: Option<String>)
    ensures
        match r {
            Some(p) => pinned_store_target(logical@, store_path@) == Some(p@),
            None => pinned_store_target(logical@, store_path@) is None,
        },
{
    let l = chars_of(logical);
    let prefix = chars_of("/nix/store/");
    proof {
        reveal_strlit("/nix/store/");
    }
    assert(prefix@ =~= logical_store_prefix());
    if starts_with(&l, &prefix) {
        let mut slash: Vec<char> = Vec::new();
        slash.push('/');
        assert(slash@ =~= seq!['/']);
        let rest = trim_start_matches_seq(&l, &slash);
        let s = chars_of(store_path);
        let r = path_join_vec(&s, &rest);
        Some(string_of(r.as_slice()))
    } else {
        None
    }
}

} // verus!
