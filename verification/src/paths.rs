//! Path handling: home expansion, grounding of logical store paths in the
//! physical store, and the resolution of files that a manifest names.
//!
//! Paths are strings; they are taken to hold no `.` components and no doubled
//! separators, as canonical paths and paths built by joining never do.
use vstd::prelude::*;
use crate::text::{chars_of, string_of, path_join, path_join_vec, starts_with, trim_start_matches, trim_start_matches_seq, replace_all, replace_seq, is_prefix, last_index_of, last_index_of_vec, lemma_last_index_of, trim_trailing_slashes, subrange_vec, file_name, file_name_vec, str_equal, occurs_at, occurs_in};

verus! {

/// The home directory of the user, as `dirs::home_dir` finds it (from the
/// environment); no property of the answer is claimed.
#[verifier::external_body]
pub(crate) fn home_dir() -> Option<String> {
    dirs::home_dir().map(|p| p.to_string_lossy().to_string())
}

/// `path` with a leading `~` expanded against `home`: `~` alone is the home
/// directory, `~/rest` is `rest` under it; anything else is kept, as is
/// everything when there is no home directory.
pub open spec fn expand_with_home(path: Seq<char>, home: Option<Seq<char>>) -> Seq<char> {
    match home {
        Some(h) => if path == seq!['~'] {
            h
        } else if is_prefix(seq!['~', '/'], path) {
            path_join(h, path.subrange(2, path.len() as int))
        } else {
            path
        },
        None => path,
    }
}

/// With a home directory `h`, `~` alone becomes `h` and `~/rest` becomes
/// `rest` joined to `h`; a path that does not start with `~` is kept, and
/// without a home directory every path is kept.
pub proof fn lemma_expand_with_home_cases(path: Seq<char>, home: Option<Seq<char>>)
    ensures
        home is None ==> expand_with_home(path, home) == path,
        home matches Some(h) ==> (path == seq!['~'] ==> expand_with_home(path, home) == h),
        home matches Some(h) ==> (path.len() >= 2 && path[0] == '~' && path[1] == '/' ==> expand_with_home(
            path,
            home,
        ) == path_join(h, path.subrange(2, path.len() as int))),
        path.len() == 0 || path[0] != '~' ==> expand_with_home(path, home) == path,
{
    if path.len() >= 2 && path[0] == '~' && path[1] == '/' {
        assert(path.subrange(0, 2) =~= seq!['~', '/']);
        assert(path != seq!['~']);
    }
    if path.len() == 0 || path[0] != '~' {
        if is_prefix(seq!['~', '/'], path) {
            assert(path.subrange(0, 2)[0] == path[0]);
        }
        if path == seq!['~'] {
            assert(path[0] == '~');
        }
    }
}

/// Expands a leading `~` in `path` against the given home directory.
pub fn expand_path_with_home(path: &str, home: Option<&str>) -> (r: String)
    ensures
        r@ == expand_with_home(path@, match home { Some(h) => Some(h@), None => None }),
{
    let p = chars_of(path);
    match home {
        None => string_of(p.as_slice()),
        Some(h) => {
            let hv = chars_of(h);
            if p.len() == 1 && p[0] == '~' {
                assert(p@ =~= seq!['~']);
                string_of(hv.as_slice())
            } else if p.len() >= 2 && p[0] == '~' && p[1] == '/' {
                assert(p@.subrange(0, 2) =~= seq!['~', '/']);
                proof {
                    if p@ == seq!['~'] {
                        assert(p@.len() == 1);
                    }
                }
                let rest = subrange_vec(&p, 2, p.len());
                let r = path_join_vec(&hv, &rest);
                string_of(r.as_slice())
            } else {
                proof {
                    if p@ == seq!['~'] {
                        assert(p@[0] == '~');
                    }
                    if is_prefix(seq!['~', '/'], p@) {
                        assert(p@.subrange(0, 2)[0] == '~');
                        assert(p@.subrange(0, 2)[1] == '/');
                    }
                }
                string_of(p.as_slice())
            }
        },
    }
}

/// `home` is an answer that `home_dir` gives (`dirs::home_dir`, which reads
/// the environment, so that two calls may differ).
pub closed spec fn home_found(home: Option<String>) -> bool {
    call_ensures(home_dir, (), home)
}

/// Asks `home_dir` for the home directory.
pub(crate) fn find_home() -> (r: Option<String>)
    ensures
        home_found(r),
{
    let ask = home_dir;
    ask()
}

/// The home directory as a text, when there is one.
pub open spec fn home_text(home: Option<String>) -> Option<Seq<char>> {
    match home {
        Some(h) => Some(h@),
        None => None,
    }
}

/// Expands a leading `~` in `path` against the user's home directory: the
/// result is the expansion against what a call of `home_dir` returned.
pub fn expand_path(path: &str) -> (r: String)
    ensures
        exists|home: Option<Seq<char>>| r@ == expand_with_home(path@, home),
        exists|home: Option<String>| #[trigger] home_found(home) && r@ == expand_with_home(path@, home_text(home)),
{
    let home = find_home();
    match home {
        Some(h) => {
            let r = expand_path_with_home(path, Some(h.as_str()));
            assert(r@ == expand_with_home(path@, Some(h@)));
            r
        },
        None => {
            let r = expand_path_with_home(path, None);
            assert(r@ == expand_with_home(path@, None));
            r
        },
    }
}

/// The logical store prefix `/nix/store/`.
pub open spec fn logical_store_prefix() -> Seq<char> {
    seq!['/', 'n', 'i', 'x', '/', 's', 't', 'o', 'r', 'e', '/']
}

/// The physical store directory `<store_path>/nix/store/`.
pub open spec fn physical_store_prefix(store_path: Seq<char>) -> Seq<char> {
    path_join(store_path, seq!['n', 'i', 'x', '/', 's', 't', 'o', 'r', 'e', '/'])
}

/// `input` with every logical store prefix replaced by the physical one.
pub open spec fn grounded(input: Seq<char>, store_path: Seq<char>) -> Seq<char> {
    replace_all(input, logical_store_prefix(), physical_store_prefix(store_path))
}

fn logical_prefix_vec() -> (r: Vec<char>)
    ensures
        r@ == logical_store_prefix(),
{
    let r = chars_of("/nix/store/");
    proof {
        reveal_strlit("/nix/store/");
    }
    assert(r@ =~= logical_store_prefix());
    r
}

/// Rewrites every logical store path in `input` (`/nix/store/...`) to the
/// corresponding path in the physical store rooted at `store_path`.
pub fn ground_logical_path(input: String, store_path: &str) -> (r: String)
    ensures
        r@ == grounded(input@, store_path@),
{
    let s = chars_of(input.as_str());
    let pat = logical_prefix_vec();
    let base = chars_of(store_path);
    let tail = chars_of("nix/store/");
    proof {
        reveal_strlit("nix/store/");
    }
    assert(tail@ =~= seq!['n', 'i', 'x', '/', 's', 't', 'o', 'r', 'e', '/']);
    let rep = path_join_vec(&base, &tail);
    let r = replace_seq(&s, &pat, &rep);
    string_of(r.as_slice())
}

/// A string that holds no logical store prefix is left as it is.
pub proof fn lemma_grounded_unchanged(input: Seq<char>, store_path: Seq<char>)
    requires
        !occurs_in(input, logical_store_prefix()),
    ensures
        grounded(input, store_path) == input,
    decreases input.len(),
{
    if input.len() > 0 {
        let rest = input.subrange(1, input.len() as int);
        assert(!is_prefix(logical_store_prefix(), input)) by {
            if is_prefix(logical_store_prefix(), input) {
                assert(occurs_at(input, logical_store_prefix(), 0));
            }
        }
        assert(!occurs_in(rest, logical_store_prefix())) by {
            if occurs_in(rest, logical_store_prefix()) {
                let i = choose|i: int| occurs_at(rest, logical_store_prefix(), i);
                assert(input.subrange(i + 1, i + 1 + logical_store_prefix().len()) =~= rest.subrange(
                    i,
                    i + logical_store_prefix().len(),
                ));
                assert(occurs_at(input, logical_store_prefix(), i + 1));
            }
        }
        lemma_grounded_unchanged(rest, store_path);
        assert(seq![input[0]] + rest =~= input);
    }
}

/// The parent of a path, as `Path::parent` gives it: none for the empty
/// path and the root, the empty path for a single relative component.
pub open spec fn parent(p: Seq<char>) -> Option<Seq<char>> {
    let t = trim_trailing_slashes(p);
    let i = last_index_of(t, '/');
    if t.len() == 0 {
        None
    } else if i < 0 {
        Some(Seq::<char>::empty())
    } else if i == 0 {
        Some(seq!['/'])
    } else {
        Some(t.subrange(0, i))
    }
}

/// `Path::parent`.
pub fn parent_vec(p: &Vec<char>) -> (r: Option<Vec<char>>)
    ensures
        match r {
            Some(v) => parent(p@) == Some(v@),
            None => parent(p@) is None,
        },
{
    let mut j: usize = p.len();
    assert(p@.subrange(0, p@.len() as int) =~= p@);
    while j > 0 && p[j - 1] == '/'
        invariant
            j <= p.len(),
            trim_trailing_slashes(p@.subrange(0, j as int)) == trim_trailing_slashes(p@),
        decreases j,
    {
        assert(p@.subrange(0, j as int).drop_last() =~= p@.subrange(0, j - 1));
        j = j - 1;
    }
    let t = subrange_vec(p, 0, j);
    assert(trim_trailing_slashes(t@) == t@);
    if t.len() == 0 {
        return None;
    }
    proof { lemma_last_index_of(t@, '/'); }
    match last_index_of_vec(&t, '/') {
        None => Some(Vec::new()),
        Some(i) => {
            if i == 0 {
                let mut v: Vec<char> = Vec::new();
                v.push('/');
                assert(v@ =~= seq!['/']);
                Some(v)
            } else {
                Some(subrange_vec(&t, 0, i))
            }
        },
    }
}

/// Where a file that a manifest names lies: nowhere for an empty name or
/// `null`; `./rest` is `rest` in the directory of the manifest (or `.` when
/// the manifest path has no parent); any other name is taken as it is.
pub open spec fn manifest_file_path(manifest: Seq<char>, raw: Seq<char>) -> Option<Seq<char>> {
    if raw.len() == 0 || raw == "null"@ {
        None
    } else if is_prefix(seq!['.', '/'], raw) {
        let dir = match parent(manifest) {
            Some(d) => d,
            None => seq!['.'],
        };
        Some(path_join(dir, trim_start_matches(raw, seq!['.', '/'])))
    } else {
        Some(raw)
    }
}

/// Resolves a file named in the manifest at `manifest` (a torrent, a cover or
/// a poster) to a path.
pub fn manifest_file_path_of(manifest: &str, raw: &str) -> (r: Option<String>)
    ensures
        match r {
            Some(v) => manifest_file_path(manifest@, raw@) == Some(v@),
            None => manifest_file_path(manifest@, raw@) is None,
        },
{
    let rv = chars_of(raw);
    if rv.len() == 0 || str_equal(raw, "null") {
        return None;
    }
    let mut dot_slash: Vec<char> = Vec::new();
    dot_slash.push('.');
    dot_slash.push('/');
    assert(dot_slash@ =~= seq!['.', '/']);
    if starts_with(&rv, &dot_slash) {
        let m = chars_of(manifest);
        let dir = match parent_vec(&m) {
            Some(d) => d,
            None => {
                let mut d: Vec<char> = Vec::new();
                d.push('.');
                assert(d@ =~= seq!['.']);
                d
            },
        };
        let rest = trim_start_matches_seq(&rv, &dot_slash);
        let r = path_join_vec(&dir, &rest);
        Some(string_of(r.as_slice()))
    } else {
        Some(string_of(rv.as_slice()))
    }
}

/// How an album path given on the command line looked on disk.
pub struct PathProbe {
    /// The canonical form of the path, when it exists.
    pub canonical: Option<String>,
    /// The canonical path is a directory.
    pub is_dir: bool,
    /// The canonical path is a regular file.
    pub is_file: bool,
    /// The directory holds an entry named `album.nix`.
    pub has_album_nix: bool,
}

/// Why no album manifest was found.
#[derive(PartialEq, Eq, Structural)]
pub enum AlbumPathError {
    /// The path does not exist.
    PathDoesNotExist,
    /// Neither the path nor the directory it names is an `album.nix`.
    NoAlbumNix,
}

/// The name of an album manifest.
pub open spec fn album_nix_name() -> Seq<char> {
    seq!['a', 'l', 'b', 'u', 'm', '.', 'n', 'i', 'x']
}

/// The album manifest that a probed path designates: `album.nix` inside a
/// directory that holds one, or the path itself when it is a file named
/// `album.nix`.
pub open spec fn album_path_result(probe: PathProbe) -> Result<Seq<char>, AlbumPathError> {
    match probe.canonical {
        None => Err(AlbumPathError::PathDoesNotExist),
        Some(p) => if probe.is_dir && probe.has_album_nix {
            Ok(path_join(p@, album_nix_name()))
        } else if probe.is_file && file_name(p@) == Some(album_nix_name()) {
            Ok(p@)
        } else {
            Err(AlbumPathError::NoAlbumNix)
        },
    }
}

/// The album manifest that a probed path designates.
pub fn resolve_album_path(probe: &PathProbe) -> (r: Result<String, AlbumPathError>)
    ensures
        match r {
            Ok(p) => album_path_result(*probe) == Ok::<Seq<char>, AlbumPathError>(p@),
            Err(e) => album_path_result(*probe) == Err::<Seq<char>, AlbumPathError>(e),
        },
{
    match &probe.canonical {
        None => Err(AlbumPathError::PathDoesNotExist),
        Some(p) => {
            let pv = chars_of(p.as_str());
            let name = chars_of("album.nix");
            proof {
                reveal_strlit("album.nix");
            }
            assert(name@ =~= album_nix_name());
            if probe.is_dir && probe.has_album_nix {
                let r = path_join_vec(&pv, &name);
                Ok(string_of(r.as_slice()))
            } else if probe.is_file && match file_name_vec(&pv) {
                Some(f) => crate::text::seq_equal(&f, &name),
                None => false,
            } {
                Ok(string_of(pv.as_slice()))
            } else {
                Err(AlbumPathError::NoAlbumNix)
            }
        },
    }
}

/// The last `c` of `a + b`, where `b` holds none, is the last `c` of `a`.
proof fn lemma_last_index_skip(a: Seq<char>, b: Seq<char>, c: char)
    requires
        !b.contains(c),
    ensures
        last_index_of(a + b, c) == last_index_of(a, c),
    decreases b.len(),
{
    if b.len() == 0 {
        assert(a + b =~= a);
    } else {
        assert((a + b).drop_last() =~= a + b.drop_last());
        assert((a + b).last() == b.last());
        if b.drop_last().contains(c) {
            let k = choose|k: int| 0 <= k < b.drop_last().len() && b.drop_last()[k] == c;
            assert(b[k] == c);
        }
        lemma_last_index_skip(a, b.drop_last(), c);
    }
}

/// The file name of `album.nix` joined to a directory is `album.nix`.
proof fn lemma_album_nix_file_name(dir: Seq<char>)
    ensures
        file_name(path_join(dir, album_nix_name())) == Some(album_nix_name()),
{
    let n = album_nix_name();
    let q = path_join(dir, n);
    let pre = if dir.len() == 0 {
        dir
    } else if dir.last() == '/' {
        dir
    } else {
        dir + seq!['/']
    };
    assert(q =~= pre + n);
    assert(q.last() == 'x');
    assert(trim_trailing_slashes(q) == q);
    if n.contains('/') {
        let k = choose|k: int| 0 <= k < n.len() && n[k] == '/';
    }
    lemma_last_index_skip(pre, n, '/');
    if pre.len() > 0 {
        assert(pre.last() == '/');
        assert(last_index_of(pre, '/') == pre.len() - 1);
    }
    assert(q.subrange(last_index_of(q, '/') + 1, q.len() as int) =~= n);
}

/// Resolving again the album manifest that a resolution gave, while the disk
/// is as it was, gives it again: the second probe finds that path, canonical
/// already, to be a regular file (not a directory).
pub proof fn lemma_album_path_stable(first: PathProbe, second: PathProbe)
    requires
        album_path_result(first) is Ok,
        second.canonical matches Some(c) && album_path_result(first) == Ok::<Seq<char>, AlbumPathError>(c@),
        second.is_file,
        !second.is_dir,
    ensures
        album_path_result(second) == album_path_result(first),
{
    let p = first.canonical.unwrap()@;
    if first.is_dir && first.has_album_nix {
        lemma_album_nix_file_name(p);
    }
}

/// The path of `album.nix` inside a directory, which the caller probes.
pub fn album_nix_in(dir: &str) -> (r: String)
    ensures
        r@ == path_join(dir@, album_nix_name()),
{
    let name = chars_of("album.nix");
    proof {
        reveal_strlit("album.nix");
    }
    assert(name@ =~= album_nix_name());
    let d = chars_of(dir);
    let r = path_join_vec(&d, &name);
    string_of(r.as_slice())
}

} // verus!
