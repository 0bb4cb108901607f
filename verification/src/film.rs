//! Films: the manifest fields generated for a film, the video file chosen in
//! its torrent, and the name of the link to that video.
use vstd::prelude::*;
use crate::text::{chars_of, string_of, to_string, append_str, path_extension, extension_vec, map_char, replace_char, str_equal, is_suffix, ends_with, path_join, path_join_str};
use crate::hash::PLACEHOLDER_HASH;
use crate::names::lowercase;
use crate::glob::{build_globset, is_match, glob_patterns, all_valid, globset_build_ok, globset_globs, GlobError};
use crate::ctdb::patterns_match;

verus! {

/// One file of a torrent.
pub struct TorrentFile {
    /// Its size in bytes.
    pub length: i64,
    /// Its path inside the torrent.
    pub path: String,
}

/// What a torrent says of its content.
pub struct TorrentInfo {
    /// The torrent's name: the file name for a single file, else the
    /// suggested directory.
    pub name: String,
    /// The files, when there is more than one.
    pub files: Option<Vec<TorrentFile>>,
}

/// The origin hash of a new album or film manifest: the one an existing
/// manifest declares when it could be read and is not empty, else the
/// placeholder.
pub fn get_origin_hash(evaluated: Option<&str>) -> (r: String)
    ensures
        r@ == match evaluated {
            Some(h) => if h@.len() > 0 { h@ } else { PLACEHOLDER_HASH@ },
            None => PLACEHOLDER_HASH@,
        },
{
    match evaluated {
        Some(h) => if chars_of(h).len() > 0 {
            to_string(h)
        } else {
            to_string(PLACEHOLDER_HASH)
        },
        None => to_string(PLACEHOLDER_HASH),
    }
}

/// The poster files looked for, in order of preference.
pub open spec fn poster_candidates_spec() -> Seq<Seq<char>> {
    seq!["poster.png"@, "poster.jpg"@, "cover.png"@, "cover.jpg"@]
}

/// The poster files looked for, in order of preference.
pub fn poster_candidates() -> (r: Vec<String>)
    ensures
        crate::text::views_str(r@) == poster_candidates_spec(),
{
    let mut r: Vec<String> = Vec::new();
    r.push(to_string("poster.png"));
    r.push(to_string("poster.jpg"));
    r.push(to_string("cover.png"));
    r.push(to_string("cover.jpg"));
    assert(crate::text::views_str(r@) =~= poster_candidates_spec());
    r
}

/// The poster fields of a new film manifest: the first candidate that exists
/// (`poster.png` when none does) and its hash (the placeholder when it could
/// not be computed).
pub fn get_poster_info(found: Option<&str>, hash: Option<&str>) -> (r: (String, String))
    ensures
        r.0@ == match found { Some(f) => f@, None => "poster.png"@ },
        r.1@ == match hash { Some(h) => h@, None => PLACEHOLDER_HASH@ },
{
    let f = match found {
        Some(f) => to_string(f),
        None => to_string("poster.png"),
    };
    let h = match hash {
        Some(h) => to_string(h),
        None => to_string(PLACEHOLDER_HASH),
    };
    (f, h)
}

/// A video extension (after lower-casing): mkv, mp4, avi, mov or webm.
pub open spec fn is_video_extension(ext: Seq<char>) -> bool {
    let l = lowercase(ext);
    l == "mkv"@ || l == "mp4"@ || l == "avi"@ || l == "mov"@ || l == "webm"@
}

/// The path has a video extension.
pub open spec fn is_video_path(p: Seq<char>) -> bool {
    match path_extension(p) {
        Some(e) => is_video_extension(e),
        None => is_video_extension(Seq::<char>::empty()),
    }
}

fn is_video_path_exec(p: &str) -> (r: bool)
    ensures
        r == is_video_path(p@),
{
    let pv = chars_of(p);
    let ext = match extension_vec(&pv) {
        Some(e) => string_of(e.as_slice()),
        None => string_of(Vec::<char>::new().as_slice()),
    };
    let l = ext.as_str().to_lowercase();
    str_equal(l.as_str(), "mkv") || str_equal(l.as_str(), "mp4") || str_equal(l.as_str(), "avi")
        || str_equal(l.as_str(), "mov") || str_equal(l.as_str(), "webm")
}

/// The index of the largest video file (the first of the largest), among
/// files longer than 0 bytes.
pub open spec fn largest_video(files: Seq<TorrentFile>) -> Option<int>
    decreases files.len(),
{
    if files.len() == 0 {
        None
    } else {
        let prev = largest_video(files.drop_last());
        let max_len: int = match prev {
            Some(i) => files[i].length as int,
            None => 0,
        };
        if is_video_path(files.last().path@) && files.last().length > max_len {
            Some(files.len() - 1)
        } else {
            prev
        }
    }
}

proof fn lemma_largest_video(files: Seq<TorrentFile>)
    ensures
        largest_video(files) matches Some(i) ==> 0 <= i < files.len(),
    decreases files.len(),
{
    if files.len() > 0 {
        lemma_largest_video(files.drop_last());
    }
}

/// The extensions that mark a video file.
pub open spec fn video_extension_list() -> Seq<Seq<char>> {
    seq!["mkv"@, "mp4"@, "avi"@, "mov"@, "webm"@]
}

/// Without a filter, a file counts as a video exactly when its extension
/// (empty when it has none), lower-cased, is one of mkv, mp4, avi, mov and
/// webm.
pub proof fn lemma_video_extension_list(p: Seq<char>)
    ensures
        is_video_path(p) <==> video_extension_list().contains(
            lowercase(
                match path_extension(p) {
                    Some(e) => e,
                    None => Seq::<char>::empty(),
                },
            ),
        ),
{
    let l = lowercase(
        match path_extension(p) {
            Some(e) => e,
            None => Seq::<char>::empty(),
        },
    );
    let v = video_extension_list();
    assert(v[0] == "mkv"@ && v[1] == "mp4"@ && v[2] == "avi"@ && v[3] == "mov"@ && v[4] == "webm"@);
    if v.contains(l) {
        let i = choose|i: int| 0 <= i < v.len() && v[i] == l;
        assert(i == 0 || i == 1 || i == 2 || i == 3 || i == 4);
    }
    if l == "mkv"@ {
        assert(v[0] == l);
    } else if l == "mp4"@ {
        assert(v[1] == l);
    } else if l == "avi"@ {
        assert(v[2] == l);
    } else if l == "mov"@ {
        assert(v[3] == l);
    } else if l == "webm"@ {
        assert(v[4] == l);
    }
}

/// Without a filter, the video of a torrent of several files is the first of
/// its largest video files (of more than 0 bytes), under the torrent's name;
/// empty when no video file has any byte.
pub proof fn lemma_video_choice(name: Seq<char>, files: Seq<TorrentFile>)
    ensures
        match largest_video(files) {
            Some(i) => {
                &&& 0 <= i < files.len()
                &&& is_video_path(files[i].path@)
                &&& files[i].length > 0
                &&& forall|j: int| 0 <= j < files.len() && is_video_path(#[trigger] files[j].path@)
                    ==> files[j].length <= files[i].length
                &&& forall|j: int| 0 <= j < i && is_video_path(#[trigger] files[j].path@)
                    ==> files[j].length < files[i].length
                &&& video_path_of(name, Some(files), None) == name + seq!['/'] + files[i].path@
            },
            None => {
                &&& forall|j: int| 0 <= j < files.len() && is_video_path(#[trigger] files[j].path@)
                    ==> files[j].length <= 0
                &&& video_path_of(name, Some(files), None) == Seq::<char>::empty()
            },
        },
    decreases files.len(),
{
    if files.len() > 0 {
        let prev = files.drop_last();
        lemma_video_choice(name, prev);
        assert forall|j: int| 0 <= j < prev.len() implies #[trigger] prev[j] == files[j] by {}
        let n = files.len() - 1;
        match largest_video(prev) {
            Some(i) => {
                assert(prev[i] == files[i]);
                if is_video_path(files[n].path@) && files[n].length > files[i].length {
                    assert forall|j: int| 0 <= j < files.len() && is_video_path(#[trigger] files[j].path@)
                        implies files[j].length <= files[n].length by {
                        if j < n {
                            assert(prev[j] == files[j]);
                        }
                    }
                    assert forall|j: int| 0 <= j < n && is_video_path(#[trigger] files[j].path@)
                        implies files[j].length < files[n].length by {
                        assert(prev[j] == files[j]);
                    }
                } else {
                    assert forall|j: int| 0 <= j < files.len() && is_video_path(#[trigger] files[j].path@)
                        implies files[j].length <= files[i].length by {
                        if j < n {
                            assert(prev[j] == files[j]);
                        }
                    }
                    assert forall|j: int| 0 <= j < i && is_video_path(#[trigger] files[j].path@)
                        implies files[j].length < files[i].length by {
                        assert(prev[j] == files[j]);
                    }
                }
            },
            None => {
                assert forall|j: int| 0 <= j < files.len() && is_video_path(#[trigger] files[j].path@)
                    implies files[j].length <= (if largest_video(files) is Some { files[n].length } else { 0 }) by {
                    if j < n {
                        assert(prev[j] == files[j]);
                    }
                }
                if largest_video(files) is Some {
                    assert forall|j: int| 0 <= j < n && is_video_path(#[trigger] files[j].path@)
                        implies files[j].length < files[n].length by {
                        assert(prev[j] == files[j]);
                    }
                }
            },
        }
    }
}

/// The index of the first file whose path a pattern matches.
pub open spec fn first_matching(files: Seq<TorrentFile>, pats: Seq<Seq<char>>) -> Option<int>
    decreases files.len(),
{
    if files.len() == 0 {
        None
    } else {
        match first_matching(files.drop_last(), pats) {
            Some(i) => Some(i),
            None => if patterns_match(pats, files.last().path@) {
                Some(files.len() - 1)
            } else {
                None
            },
        }
    }
}

/// The video of a torrent: with several files, `<name>/<path>` of the first
/// file the filter matches, or without a filter of the largest video file;
/// with one file, its name when the filter (or, without one, its extension)
/// accepts it; empty otherwise. Fails when the filter does not compile.
pub open spec fn video_path_of(name: Seq<char>, files: Option<Seq<TorrentFile>>, pats: Option<Seq<Seq<char>>>) -> Seq<char> {
    match files {
        Some(fs) => {
            let chosen = match pats {
                Some(p) => first_matching(fs, p),
                None => largest_video(fs),
            };
            match chosen {
                Some(i) => name + seq!['/'] + fs[i].path@,
                None => Seq::<char>::empty(),
            }
        },
        None => {
            let accepted = match pats {
                Some(p) => patterns_match(p, name),
                None => is_video_path(name),
            };
            if accepted { name } else { Seq::<char>::empty() }
        },
    }
}

/// An optional index as an integer.
pub open spec fn opt_int(o: Option<usize>) -> Option<int> {
    match o {
        Some(k) => Some(k as int),
        None => None,
    }
}

/// The filter compiles.
pub open spec fn filter_compiles(filter: Seq<char>) -> bool {
    all_valid(glob_patterns(filter)) && globset_build_ok(glob_patterns(filter))
}

/// The video file that a new film manifest names.
pub fn resolve_video_path(torrent: &TorrentInfo, filter: Option<&str>) -> (r: Result<String, GlobError>)
    ensures
        r is Ok <==> match filter { Some(f) => filter_compiles(f@), None => true },
        r matches Ok(v) ==> v@ == video_path_of(torrent.name@, match &torrent.files { Some(fs) => Some(fs@), None => None }, match filter {
            Some(f) => Some(glob_patterns(f@)),
            None => None,
        }),
{
    let set = match filter {
        Some(f) => match build_globset(f) {
            Ok(s) => Some(s),
            Err(e) => return Err(e),
        },
        None => None,
    };
    let ghost pats: Option<Seq<Seq<char>>> = match filter {
        Some(f) => Some(glob_patterns(f@)),
        None => None,
    };
    match &torrent.files {
        Some(files) => {
            let mut chosen: Option<usize> = None;
            let mut max_len: i64 = 0;
            let mut i: usize = 0;
            while i < files.len()
                invariant
                    i <= files.len(),
                    pats == (match filter { Some(f) => Some(glob_patterns(f@)), None => None::<Seq<Seq<char>>> }),
                    match set {
                        Some(s) => pats == Some(globset_globs(s)),
                        None => pats is None,
                    },
                    match pats {
                        Some(p) => opt_int(chosen) == first_matching(files@.subrange(0, i as int), p)
                            && (chosen is Some ==> chosen.unwrap() < i),
                        None => opt_int(chosen) == largest_video(files@.subrange(0, i as int))
                            && (chosen is Some ==> chosen.unwrap() < i && max_len == files@[chosen.unwrap() as int].length)
                            && (chosen is None ==> max_len == 0),
                    },
                decreases files.len() - i,
            {
                let ghost t = files@.subrange(0, i + 1);
                assert(t.drop_last() =~= files@.subrange(0, i as int));
                assert(t.last() == files@[i as int]);
                proof { lemma_largest_video(files@.subrange(0, i as int)); }
                match &set {
                    Some(s) => {
                        if chosen.is_none() && is_match(s, files[i].path.as_str()) {
                            chosen = Some(i);
                        }
                    },
                    None => {
                        if is_video_path_exec(files[i].path.as_str()) && files[i].length > max_len {
                            max_len = files[i].length;
                            chosen = Some(i);
                        }
                    },
                }
                proof {
                    match largest_video(files@.subrange(0, i as int)) {
                        Some(k) => {
                            assert(files@.subrange(0, i as int)[k] == files@[k]);
                            assert(t[k] == files@[k]);
                        },
                        None => {},
                    }
                }
                i = i + 1;
            }
            assert(files@.subrange(0, files@.len() as int) =~= files@);
            match chosen {
                Some(k) => {
                    let mut out = chars_of(torrent.name.as_str());
                    out.push('/');
                    append_str(&mut out, files[k].path.as_str());
                    Ok(string_of(out.as_slice()))
                },
                None => Ok(string_of(Vec::<char>::new().as_slice())),
            }
        },
        None => {
            let accepted = match &set {
                Some(s) => is_match(s, torrent.name.as_str()),
                None => is_video_path_exec(torrent.name.as_str()),
            };
            if accepted {
                Ok(torrent.name.clone())
            } else {
                Ok(string_of(Vec::<char>::new().as_slice()))
            }
        },
    }
}

/// The name of the link to a film's video: `<title> - <year> - <director>.<ext>`
/// with `Unknown Title`, `Unknown Year`, `Unknown Director` for empty fields
/// and `mkv` when the video has no extension; every `/` made `_`.
pub open spec fn film_link_name(title: Seq<char>, year: Seq<char>, director: Seq<char>, ext: Option<Seq<char>>) -> Seq<char> {
    let t = if title.len() == 0 { "Unknown Title"@ } else { title };
    let y = if year.len() == 0 { "Unknown Year"@ } else { year };
    let d = if director.len() == 0 { "Unknown Director"@ } else { director };
    let e = match ext {
        Some(e) => e,
        None => "mkv"@,
    };
    map_char(t + " - "@ + y + " - "@ + d + seq!['.'] + e, '/', '_')
}

/// The name of the link to a film's video; `video` is the video's path.
pub fn get_film_link_name(title: &str, year: &str, director: &str, video: &str) -> (r: String)
    ensures
        r@ == film_link_name(title@, year@, director@, path_extension(video@)),
{
    let mut out: Vec<char> = Vec::new();
    if chars_of(title).len() == 0 {
        append_str(&mut out, "Unknown Title");
    } else {
        append_str(&mut out, title);
    }
    append_str(&mut out, " - ");
    if chars_of(year).len() == 0 {
        append_str(&mut out, "Unknown Year");
    } else {
        append_str(&mut out, year);
    }
    append_str(&mut out, " - ");
    if chars_of(director).len() == 0 {
        append_str(&mut out, "Unknown Director");
    } else {
        append_str(&mut out, director);
    }
    out.push('.');
    match extension_vec(&chars_of(video)) {
        Some(e) => crate::text::append_vec(&mut out, &e),
        None => append_str(&mut out, "mkv"),
    }
    let r = replace_char(&out, '/', '_');
    string_of(r.as_slice())
}

/// A film's link name holds no `/`.
pub proof fn lemma_film_link_name_no_slash(title: Seq<char>, year: Seq<char>, director: Seq<char>, ext: Option<Seq<char>>)
    ensures
        !film_link_name(title, year, director, ext).contains('/'),
{
    let r = film_link_name(title, year, director, ext);
    if r.contains('/') {
        let k = choose|k: int| 0 <= k < r.len() && r[k] == '/';
    }
}

/// A link in the film directory that is replaced by the new video link: its
/// name ends with `.<ext>` of the new video, or it is the new link itself.
pub open spec fn stale_video_link(link_name: Seq<char>, link_path: Seq<char>, ext: Seq<char>, new_link_path: Seq<char>) -> bool {
    is_suffix(seq!['.'] + ext, link_name) || link_path == new_link_path
}

/// Whether a link in the film directory is replaced by the new video link.
pub fn is_stale_video_link(link_name: &str, link_path: &str, ext: &str, new_link_path: &str) -> (r: bool)
    ensures
        r == stale_video_link(link_name@, link_path@, ext@, new_link_path@),
{
    let mut suffix: Vec<char> = Vec::new();
    suffix.push('.');
    append_str(&mut suffix, ext);
    assert(suffix@ =~= seq!['.'] + ext@);
    ends_with(&chars_of(link_name), &suffix) || str_equal(link_path, new_link_path)
}

/// The path of `film.nix` in a directory.
pub fn film_nix_in(dir: &str) -> (r: String)
    ensures
        r@ == path_join(dir@, "film.nix"@),
{
    path_join_str(dir, "film.nix")
}

} // verus!
