//! The album manifest (`album.nix`) that is generated for a directory of
//! tracks: which files are tracks, which cover and torrent it names, and the
//! text of the manifest.
use vstd::prelude::*;
use crate::text::{chars_of, string_of, append_str, to_string, views_str};
use crate::hash::PLACEHOLDER_HASH;
use crate::glob::{build_globset, is_match, glob_patterns, all_valid, globset_build_ok, globset_globs};
use crate::ctdb::patterns_match;
use crate::order::sort_paths;

verus! {

/// The code of the ASCII lower-case form of a character.
pub open spec fn ascii_lower(c: char) -> u32 {
    if 'A' <= c && c <= 'Z' {
        (c as u32 + 32) as u32
    } else {
        c as u32
    }
}

/// Equality up to ASCII case (`str::eq_ignore_ascii_case`).
pub open spec fn eq_ignore_ascii_case(a: Seq<char>, b: Seq<char>) -> bool {
    a.len() == b.len() && forall|i: int| 0 <= i < a.len() ==> ascii_lower(#[trigger] a[i]) == ascii_lower(b[i])
}

fn ascii_lower_exec(c: char) -> (r: u32)
    ensures
        r == ascii_lower(c),
{
    if 'A' <= c && c <= 'Z' {
        c as u32 + 32
    } else {
        c as u32
    }
}

/// `str::eq_ignore_ascii_case`.
pub fn eq_ignore_ascii_case_str(a: &str, b: &str) -> (r: bool)
    ensures
        r == eq_ignore_ascii_case(a@, b@),
{
    let av = chars_of(a);
    let bv = chars_of(b);
    if av.len() != bv.len() {
        return false;
    }
    let mut i: usize = 0;
    while i < av.len()
        invariant
            i <= av.len(),
            av.len() == bv.len(),
            av@ == a@,
            bv@ == b@,
            forall|k: int| 0 <= k < i ==> ascii_lower(#[trigger] av@[k]) == ascii_lower(bv@[k]),
        decreases av.len() - i,
    {
        if ascii_lower_exec(av[i]) != ascii_lower_exec(bv[i]) {
            assert(!(ascii_lower(av@[i as int]) == ascii_lower(bv@[i as int])));
            assert(av@ == a@ && bv@ == b@);
            return false;
        }
        i = i + 1;
    }
    true
}

/// A track extension: `flac`, `mp3` or `wav` in any ASCII case.
pub open spec fn is_track_extension(ext: Seq<char>) -> bool {
    eq_ignore_ascii_case(ext, "flac"@) || eq_ignore_ascii_case(ext, "mp3"@) || eq_ignore_ascii_case(ext, "wav"@)
}

/// Whether an extension is a track extension.
pub fn is_track_extension_str(ext: &str) -> (r: bool)
    ensures
        r == is_track_extension(ext@),
{
    eq_ignore_ascii_case_str(ext, "flac") || eq_ignore_ascii_case_str(ext, "mp3") || eq_ignore_ascii_case_str(ext, "wav")
}

/// A file found in the album directory.
pub struct ManifestCandidate {
    /// The file's path.
    pub path: String,
    /// The path relative to the album directory (the path itself when it
    /// lies elsewhere).
    pub rel: String,
    /// The file's extension, when it has one.
    pub extension: Option<String>,
}

/// Whether a candidate is a track of the manifest: a track extension and a
/// relative path that a pattern of the filter matches.
pub open spec fn manifest_track_selected(c: ManifestCandidate, pats: Seq<Seq<char>>) -> bool {
    match c.extension {
        Some(e) => is_track_extension(e@) && patterns_match(pats, c.rel@),
        None => false,
    }
}

/// The paths of the candidates that are tracks, in order.
pub open spec fn manifest_tracks(cands: Seq<ManifestCandidate>, pats: Seq<Seq<char>>) -> Seq<Seq<char>>
    decreases cands.len(),
{
    if cands.len() == 0 {
        Seq::<Seq<char>>::empty()
    } else {
        let prev = manifest_tracks(cands.drop_last(), pats);
        if manifest_track_selected(cands.last(), pats) {
            prev.push(cands.last().path@)
        } else {
            prev
        }
    }
}

/// The tracks of a new manifest: the candidates with a track extension whose
/// relative path the filter matches, put in the natural path order (a stable
/// sort: paths of which neither compares greater keep the candidates' order).
/// Fails when the filter does not compile.
pub fn manifest_track_files(cands: &Vec<ManifestCandidate>, filter: &str) -> (r: Result<Vec<String>, crate::glob::GlobError>)
    ensures
        r is Ok <==> all_valid(glob_patterns(filter@)) && globset_build_ok(glob_patterns(filter@)),
        r matches Ok(v) ==> views_str(v@).to_multiset() == manifest_tracks(cands@, glob_patterns(filter@)).to_multiset(),
        r matches Ok(v) ==> (crate::order::path_order_total_on(v@) ==> crate::order::paths_sorted(v@)),
        r matches Ok(v) ==> crate::order::stable_path_sort_of(views_str(v@), manifest_tracks(cands@, glob_patterns(filter@))),
{
    let set = match build_globset(filter) {
        Ok(s) => s,
        Err(e) => return Err(e),
    };
    let ghost pats = glob_patterns(filter@);
    let mut files: Vec<String> = Vec::new();
    let mut i: usize = 0;
    while i < cands.len()
        invariant
            i <= cands.len(),
            globset_globs(set) == pats,
            views_str(files@) == manifest_tracks(cands@.subrange(0, i as int), pats),
        decreases cands.len() - i,
    {
        let c = &cands[i];
        let keep = match &c.extension {
            Some(e) => is_track_extension_str(e.as_str()) && is_match(&set, c.rel.as_str()),
            None => false,
        };
        let ghost t = cands@.subrange(0, i + 1);
        assert(t.drop_last() =~= cands@.subrange(0, i as int));
        assert(t.last() == cands@[i as int]);
        if keep {
            files.push(c.path.clone());
            assert(views_str(files@) =~= manifest_tracks(t, pats));
        }
        i = i + 1;
    }
    assert(cands@.subrange(0, cands@.len() as int) =~= cands@);
    let sorted = sort_paths(files);
    proof {
        crate::order::lemma_path_total_multiset(sorted@, files@);
        crate::order::lemma_views_stable_exists(sorted@, files@, manifest_tracks(cands@, glob_patterns(filter@)));
        lemma_views_multiset(sorted@, files@);
    }
    Ok(sorted)
}

/// Equal multisets of strings have equal multisets of views.
pub proof fn lemma_views_multiset(a: Seq<String>, b: Seq<String>)
    requires
        a.to_multiset() == b.to_multiset(),
    ensures
        views_str(a).to_multiset() == views_str(b).to_multiset(),
    decreases a.len(),
{
    broadcast use vstd::seq_lib::group_to_multiset_ensures;
    if a.len() > 0 {
        let x = a.last();
        assert(a.to_multiset().count(x) > 0);
        assert(b.contains(x));
        let k = choose|k: int| 0 <= k < b.len() && b[k] == x;
        let b2 = b.remove(k);
        vstd::seq_lib::to_multiset_remove(b, k);
        assert(a.drop_last().to_multiset() == a.to_multiset().remove(x)) by {
            vstd::seq_lib::to_multiset_build(a.drop_last(), x);
            assert(a.drop_last().push(x) =~= a);
        }
        lemma_views_multiset(a.drop_last(), b2);
        assert(views_str(a) =~= views_str(a.drop_last()).push(x@));
        vstd::seq_lib::to_multiset_build(views_str(a.drop_last()), x@);
        assert(views_str(b2) =~= views_str(b).remove(k));
        vstd::seq_lib::to_multiset_remove(views_str(b), k);
        assert(views_str(b).to_multiset().count(x@) > 0) by {
            assert(views_str(b)[k] == x@);
        }
    } else {
        assert(b.to_multiset().len() == 0);
        assert(b.len() == 0);
        assert(views_str(a) =~= Seq::<Seq<char>>::empty());
        assert(views_str(b) =~= Seq::<Seq<char>>::empty());
    }
}

/// The cover file that a new manifest names and hashes: `cover.png` when it
/// exists, else `cover.jpg` when it exists, else none.
pub open spec fn cover_choice_of(png_exists: bool, jpg_exists: bool) -> Option<Seq<char>> {
    if png_exists {
        Some("cover.png"@)
    } else if jpg_exists {
        Some("cover.jpg"@)
    } else {
        None
    }
}

/// The cover file that a new manifest names and hashes.
pub fn cover_choice(png_exists: bool, jpg_exists: bool) -> (r: Option<String>)
    ensures
        match r {
            Some(s) => cover_choice_of(png_exists, jpg_exists) == Some(s@),
            None => cover_choice_of(png_exists, jpg_exists) is None,
        },
{
    if png_exists {
        Some(to_string("cover.png"))
    } else if jpg_exists {
        Some(to_string("cover.jpg"))
    } else {
        None
    }
}

/// The cover fields of the data of a new album manifest: the file chosen
/// (`cover.png` when there is no cover) and its hash (the placeholder when it
/// could not be computed).
pub fn cover_fields(chosen: Option<&str>, hash: Option<&str>) -> (r: (String, String))
    ensures
        r.0@ == match chosen { Some(c) => c@, None => "cover.png"@ },
        r.1@ == match hash { Some(h) => h@, None => PLACEHOLDER_HASH@ },
{
    let f = match chosen {
        Some(c) => to_string(c),
        None => to_string("cover.png"),
    };
    let h = match hash {
        Some(h) => to_string(h),
        None => to_string(PLACEHOLDER_HASH),
    };
    (f, h)
}

/// The cover fields of a new manifest: `./<file>` (`./cover.png` when there
/// is no cover) and its hash (the placeholder when it could not be computed).
pub fn manifest_cover_fields(chosen: Option<&str>, hash: Option<&str>) -> (r: (String, String))
    ensures
        r.0@ == seq!['.', '/'] + match chosen { Some(c) => c@, None => "cover.png"@ },
        r.1@ == match hash { Some(h) => h@, None => PLACEHOLDER_HASH@ },
{
    let mut file: Vec<char> = Vec::new();
    file.push('.');
    file.push('/');
    match chosen {
        Some(c) => append_str(&mut file, c),
        None => append_str(&mut file, "cover.png"),
    }
    assert(file@ =~= seq!['.', '/'] + match chosen { Some(c) => c@, None => "cover.png"@ });
    let h = match hash {
        Some(h) => to_string(h),
        None => to_string(PLACEHOLDER_HASH),
    };
    (string_of(file.as_slice()), h)
}

/// A torrent file found for a new manifest.
pub struct TorrentFound {
    /// It lies in the `Info` subdirectory (else in the album directory).
    pub in_info: bool,
    /// Its file name.
    pub name: String,
}

/// The torrent fields of a new manifest: `./Info/<name>` or `./<name>` for
/// the torrent found (`./Info/source.torrent` when none was), and its hash
/// (the placeholder when it could not be computed).
pub fn manifest_torrent_fields(found: &Option<TorrentFound>, hash: Option<&str>) -> (r: (String, String))
    ensures
        r.0@ == match found {
            Some(t) => if t.in_info { "./Info/"@ + t.name@ } else { "./"@ + t.name@ },
            None => "./Info/source.torrent"@,
        },
        r.1@ == match hash { Some(h) => h@, None => PLACEHOLDER_HASH@ },
{
    let file = match found {
        Some(t) => {
            let mut f: Vec<char> = if t.in_info { chars_of("./Info/") } else { chars_of("./") };
            append_str(&mut f, t.name.as_str());
            string_of(f.as_slice())
        },
        None => to_string("./Info/source.torrent"),
    };
    let h = match hash {
        Some(h) => to_string(h),
        None => to_string(PLACEHOLDER_HASH),
    };
    (file, h)
}

/// The part of the manifest before its tracks.
pub open spec fn manifest_head(torrent_file: Seq<char>, torrent_hash: Seq<char>, cover_file: Seq<char>, cover_hash: Seq<char>) -> Seq<char> {
    "{ munix }:\nmunix.mkAlbum {\n  name = \"\";\n  origin = {\n    path = \"\";\n    hash = \"sha256-AAAAAAAAAAAAAAAAAAAAAAAAAAAAAAAAAAAAAAAAAAA=\";\n  };\n  source.torrent = {\n    file = "@
        + torrent_file + ";\n    name = \"\";\n    hash = \""@ + torrent_hash
        + "\";\n  };\n  source.web = {\n    url = \"\";\n    hash = \"sha256-AAAAAAAAAAAAAAAAAAAAAAAAAAAAAAAAAAAAAAAAAAA=\";\n  };\n  cover = {\n    file = "@
        + cover_file + ";\n    hash = \""@ + cover_hash
        + "\";\n  };\n  album = {\n    metadata = {\n    };\n    mbid = {\n    };\n  };\n  tracks = [\n"@
}

/// The entry of one track.
pub open spec fn manifest_track_block(file: Seq<char>) -> Seq<char> {
    "    {\n      file = \""@ + file + "\";\n      metadata = {\n      };\n      mbid = {\n      };\n    }\n"@
}

/// The entries of the tracks, in order.
pub open spec fn manifest_track_blocks(files: Seq<Seq<char>>) -> Seq<char>
    decreases files.len(),
{
    if files.len() == 0 {
        Seq::<char>::empty()
    } else {
        manifest_track_blocks(files.drop_last()) + manifest_track_block(files.last())
    }
}

/// The text of a new album manifest: the head, one entry per track (a single
/// entry with an empty file when there is no track), and the closing lines.
pub open spec fn manifest_text(torrent_file: Seq<char>, torrent_hash: Seq<char>, cover_file: Seq<char>, cover_hash: Seq<char>, tracks: Seq<Seq<char>>) -> Seq<char> {
    manifest_head(torrent_file, torrent_hash, cover_file, cover_hash) + (if tracks.len() == 0 {
        manifest_track_block(Seq::<char>::empty())
    } else {
        manifest_track_blocks(tracks)
    }) + "  ];\n}\n"@
}

fn push_track_block(out: &mut Vec<char>, file: &str)
    ensures
        final(out)@ == old(out)@ + manifest_track_block(file@),
{
    let ghost o = out@;
    append_str(out, "    {\n      file = \"");
    append_str(out, file);
    append_str(out, "\";\n      metadata = {\n      };\n      mbid = {\n      };\n    }\n");
    assert(out@ =~= o + manifest_track_block(file@));
}

/// Renders a new album manifest; `tracks` are the tracks' paths relative to
/// the album directory.
pub fn render_album_manifest(torrent_file: &str, torrent_hash: &str, cover_file: &str, cover_hash: &str, tracks: &Vec<String>) -> (r: String)
    ensures
        r@ == manifest_text(torrent_file@, torrent_hash@, cover_file@, cover_hash@, views_str(tracks@)),
{
    let mut out: Vec<char> = Vec::new();
    append_str(&mut out, "{ munix }:\nmunix.mkAlbum {\n  name = \"\";\n  origin = {\n    path = \"\";\n    hash = \"sha256-AAAAAAAAAAAAAAAAAAAAAAAAAAAAAAAAAAAAAAAAAAA=\";\n  };\n  source.torrent = {\n    file = ");
    append_str(&mut out, torrent_file);
    append_str(&mut out, ";\n    name = \"\";\n    hash = \"");
    append_str(&mut out, torrent_hash);
    append_str(&mut out, "\";\n  };\n  source.web = {\n    url = \"\";\n    hash = \"sha256-AAAAAAAAAAAAAAAAAAAAAAAAAAAAAAAAAAAAAAAAAAA=\";\n  };\n  cover = {\n    file = ");
    append_str(&mut out, cover_file);
    append_str(&mut out, ";\n    hash = \"");
    append_str(&mut out, cover_hash);
    append_str(&mut out, "\";\n  };\n  album = {\n    metadata = {\n    };\n    mbid = {\n    };\n  };\n  tracks = [\n");
    let ghost head = out@;
    assert(head =~= manifest_head(torrent_file@, torrent_hash@, cover_file@, cover_hash@));
    if tracks.len() == 0 {
        push_track_block(&mut out, "");
        proof {
            reveal_strlit("");
        }
        assert(""@ =~= Seq::<char>::empty());
    } else {
        let mut i: usize = 0;
        while i < tracks.len()
            invariant
                i <= tracks.len(),
                out@ == head + manifest_track_blocks(views_str(tracks@).subrange(0, i as int)),
            decreases tracks.len() - i,
        {
            push_track_block(&mut out, tracks[i].as_str());
            let ghost t = views_str(tracks@).subrange(0, i + 1);
            assert(t.drop_last() =~= views_str(tracks@).subrange(0, i as int));
            assert(t.last() == tracks@[i as int]@);
            assert(out@ =~= head + manifest_track_blocks(t));
            i = i + 1;
        }
        assert(views_str(tracks@).subrange(0, tracks@.len() as int) =~= views_str(tracks@));
    }
    let ghost mid = out@;
    append_str(&mut out, "  ];\n}\n");
    assert(out@ =~= manifest_text(torrent_file@, torrent_hash@, cover_file@, cover_hash@, views_str(tracks@)));
    string_of(out.as_slice())
}

} // verus!
