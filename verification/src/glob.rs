//! Track and video filters: comma-separated extensions or glob patterns,
//! compiled with `globset`.
use vstd::prelude::*;
use crate::text::{
    chars_of, string_of, trim, trim_vec, trim_start_matches, trim_start_matches_seq, split_on,
    split_vec, views, concat_vec, contains_char,
};

verus! {

#[verifier::external_type_specification]
#[verifier::external_body]
pub struct ExGlobSet(globset::GlobSet);

#[verifier::external_type_specification]
#[verifier::external_body]
pub struct ExGlobSetBuilder(globset::GlobSetBuilder);

#[verifier::external_type_specification]
#[verifier::external_body]
pub struct ExGlobError(globset::Error);

/// Whether `globset::Glob::new` accepts a pattern (with default options).
pub uninterp spec fn glob_valid(pattern: Seq<char>) -> bool;

/// Whether a glob pattern matches a path (`globset` matching semantics).
pub uninterp spec fn glob_match(pattern: Seq<char>, path: Seq<char>) -> bool;

/// Whether `GlobSetBuilder::build` succeeds for builders holding these
/// patterns (it compiles them into matchers).
pub uninterp spec fn globset_build_ok(patterns: Seq<Seq<char>>) -> bool;

/// The patterns a `GlobSetBuilder` holds, in the order they were added.
pub uninterp spec fn builder_globs(b: globset::GlobSetBuilder) -> Seq<Seq<char>>;

/// The patterns a `GlobSet` was built from, in order.
pub uninterp spec fn globset_globs(s: globset::GlobSet) -> Seq<Seq<char>>;

/// `GlobSetBuilder::new`: a builder holding no pattern.
#[verifier::external_body]
fn builder_new() -> (r: globset::GlobSetBuilder)
    ensures
        builder_globs(r) == Seq::<Seq<char>>::empty(),
{
    globset::GlobSetBuilder::new()
}

/// `Glob::new` followed by `GlobSetBuilder::add`: when the pattern is
/// accepted it is appended to the builder's patterns; otherwise the builder is
/// left as it was and the error comes back.
#[verifier::external_body]
fn builder_add_pattern(b: &mut globset::GlobSetBuilder, pattern: &str) -> (r: Result<(), globset::Error>)
    ensures
        match r {
            Ok(()) => glob_valid(pattern@) && builder_globs(*final(b)) == builder_globs(*old(b)).push(
                pattern@,
            ),
            Err(_) => !glob_valid(pattern@) && builder_globs(*final(b)) == builder_globs(*old(b)),
        },
{
    let g = globset::Glob::new(pattern)?;
    b.add(g);
    Ok(())
}

/// `GlobSetBuilder::build`: a set of the builder's patterns, when they
/// compile; a builder without patterns always builds.
#[verifier::external_body]
fn builder_build(b: &globset::GlobSetBuilder) -> (r: Result<globset::GlobSet, globset::Error>)
    ensures
        r is Ok <==> globset_build_ok(builder_globs(*b)),
        builder_globs(*b).len() == 0 ==> r is Ok,
        r matches Ok(s) ==> globset_globs(s) == builder_globs(*b),
{
    b.build()
}

/// `GlobSet::is_match`: whether any pattern of the set matches the path.
#[verifier::external_body]
fn globset_is_match(s: &globset::GlobSet, path: &str) -> (r: bool)
    ensures
        r == (exists|i: int| 0 <= i < globset_globs(*s).len() && glob_match(globset_globs(*s)[i], path@)),
{
    s.is_match(path)
}

/// The text of a `globset::Error` (its `Display` form); nothing is claimed of it.
#[verifier::external_body]
fn glob_error_text(e: &globset::Error) -> String {
    e.to_string()
}

/// A filter that could not be compiled.
pub struct GlobError {
    /// What `globset` reported.
    pub message: String,
}

/// The pattern that one comma-separated part of a filter stands for: nothing
/// for a blank part; `**/*.<ext>` for a bare extension (a part without `/`,
/// `*` or `?`, leading dots dropped); the trimmed part itself otherwise.
pub open spec fn glob_pattern_of(part: Seq<char>) -> Option<Seq<char>> {
    let t = trim(part);
    if t.len() == 0 {
        None
    } else if !t.contains('/') && !t.contains('*') && !t.contains('?') {
        Some(seq!['*', '*', '/', '*', '.'] + trim_start_matches(t, seq!['.']))
    } else {
        Some(t)
    }
}

/// What one part of a filter gives: nothing when it is blank; when its
/// trimmed text holds a `/`, a `*` or a `?`, that text, as written; else
/// `**/*.` and the text without its leading dots.
pub proof fn lemma_glob_pattern_cases(part: Seq<char>)
    ensures
        trim(part).len() == 0 ==> glob_pattern_of(part) is None,
        trim(part).len() > 0 && (trim(part).contains('/') || trim(part).contains('*') || trim(part).contains('?'))
            ==> glob_pattern_of(part) == Some(trim(part)),
        trim(part).len() > 0 && !trim(part).contains('/') && !trim(part).contains('*') && !trim(part).contains('?')
            ==> glob_pattern_of(part) == Some(seq!['*', '*', '/', '*', '.'] + trim_start_matches(trim(part), seq!['.'])),
{
}

/// The patterns of the parts, in order.
pub open spec fn patterns_of(parts: Seq<Seq<char>>) -> Seq<Seq<char>>
    decreases parts.len(),
{
    if parts.len() == 0 {
        Seq::<Seq<char>>::empty()
    } else {
        let prev = patterns_of(parts.drop_last());
        match glob_pattern_of(parts.last()) {
            Some(p) => prev.push(p),
            None => prev,
        }
    }
}

/// The patterns of a comma-separated filter.
pub open spec fn glob_patterns(filter: Seq<char>) -> Seq<Seq<char>> {
    patterns_of(split_on(filter, ','))
}

/// Text without the separator is one part.
proof fn lemma_split_single(s: Seq<char>, sep: char)
    requires
        !s.contains(sep),
    ensures
        split_on(s, sep) == seq![s],
    decreases s.len(),
{
    if s.len() > 0 {
        if s.drop_last().contains(sep) {
            let k = choose|k: int| 0 <= k < s.drop_last().len() && s.drop_last()[k] == sep;
            assert(s[k] == sep);
        }
        lemma_split_single(s.drop_last(), sep);
        assert(s.last() != sep) by {
            assert(s[s.len() - 1] == s.last());
        }
        assert(s.drop_last().push(s.last()) =~= s);
        assert(split_on(s, sep) =~= seq![s]);
    } else {
        assert(s =~= Seq::<char>::empty());
    }
}

/// A filter without a comma is a single part: its patterns are that part's
/// pattern, or none when it is blank.
pub proof fn lemma_single_part_filter(filter: Seq<char>)
    requires
        !filter.contains(','),
    ensures
        glob_patterns(filter) == match glob_pattern_of(filter) {
            Some(p) => seq![p],
            None => Seq::<Seq<char>>::empty(),
        },
{
    lemma_split_single(filter, ',');
    let parts = seq![filter];
    assert(parts.drop_last() =~= Seq::<Seq<char>>::empty());
    assert(parts.last() == filter);
    assert(glob_patterns(filter) == patterns_of(parts));
    assert(patterns_of(parts.drop_last()) == Seq::<Seq<char>>::empty());
    match glob_pattern_of(filter) {
        Some(p) => {
            assert(Seq::<Seq<char>>::empty().push(p) =~= seq![p]);
        },
        None => {},
    }
}

/// The pattern of one part of a filter.
pub fn glob_pattern_of_part(part: &Vec<char>) -> (r: Option<Vec<char>>)
    ensures
        match r {
            Some(p) => glob_pattern_of(part@) == Some(p@),
            None => glob_pattern_of(part@) is None,
        },
{
    let t = trim_vec(part);
    if t.len() == 0 {
        return None;
    }
    if !contains_char(&t, '/') && !contains_char(&t, '*') && !contains_char(&t, '?') {
        let mut dot: Vec<char> = Vec::new();
        dot.push('.');
        assert(dot@ =~= seq!['.']);
        let ext = trim_start_matches_seq(&t, &dot);
        let mut prefix: Vec<char> = Vec::new();
        prefix.push('*');
        prefix.push('*');
        prefix.push('/');
        prefix.push('*');
        prefix.push('.');
        assert(prefix@ =~= seq!['*', '*', '/', '*', '.']);
        Some(concat_vec(&prefix, &ext))
    } else {
        Some(t)
    }
}

/// The patterns of a comma-separated filter.
pub fn glob_patterns_of(filter: &str) -> (r: Vec<Vec<char>>)
    ensures
        views(r@) == glob_patterns(filter@),
{
    let f = chars_of(filter);
    let parts = split_vec(&f, ',');
    let mut out: Vec<Vec<char>> = Vec::new();
    let mut i: usize = 0;
    while i < parts.len()
        invariant
            i <= parts.len(),
            views(out@) == patterns_of(views(parts@).subrange(0, i as int)),
        decreases parts.len() - i,
    {
        let ghost t = views(parts@).subrange(0, i + 1);
        assert(t.drop_last() =~= views(parts@).subrange(0, i as int));
        assert(t.last() == parts@[i as int]@);
        match glob_pattern_of_part(&parts[i]) {
            Some(p) => {
                out.push(p);
                assert(views(out@) =~= patterns_of(t));
            },
            None => {},
        }
        i = i + 1;
    }
    assert(views(parts@).subrange(0, parts@.len() as int) =~= views(parts@));
    out
}

/// Every pattern is accepted by `Glob::new`.
pub open spec fn all_valid(patterns: Seq<Seq<char>>) -> bool {
    forall|i: int| 0 <= i < patterns.len() ==> glob_valid(#[trigger] patterns[i])
}

/// Compiles a comma-separated filter of extensions and glob patterns into a
/// set of globs.
pub fn build_globset(filter: &str) -> (r: Result<globset::GlobSet, GlobError>)
    ensures
        r is Ok <==> all_valid(glob_patterns(filter@)) && globset_build_ok(glob_patterns(filter@)),
        glob_patterns(filter@).len() == 0 ==> r is Ok,
        r matches Ok(s) ==> globset_globs(s) == glob_patterns(filter@),
{
    let patterns = glob_patterns_of(filter);
    let mut b = builder_new();
    let mut i: usize = 0;
    while i < patterns.len()
        invariant
            i <= patterns.len(),
            builder_globs(b) == views(patterns@).subrange(0, i as int),
            all_valid(views(patterns@).subrange(0, i as int)),
            views(patterns@) == glob_patterns(filter@),
        decreases patterns.len() - i,
    {
        let p = string_of(patterns[i].as_slice());
        match builder_add_pattern(&mut b, p.as_str()) {
            Ok(()) => {
                assert(views(patterns@).subrange(0, i + 1) =~= views(patterns@).subrange(0, i as int).push(
                    patterns@[i as int]@,
                ));
            },
            Err(e) => {
                assert(!all_valid(views(patterns@))) by {
                    assert(views(patterns@)[i as int] == p@);
                }
                return Err(GlobError { message: glob_error_text(&e) });
            },
        }
        i = i + 1;
    }
    assert(views(patterns@).subrange(0, patterns@.len() as int) =~= views(patterns@));
    match builder_build(&b) {
        Ok(s) => Ok(s),
        Err(e) => Err(GlobError { message: glob_error_text(&e) }),
    }
}

/// Whether any pattern of the set matches `path`.
pub open spec fn set_matches(s: globset::GlobSet, path: Seq<char>) -> bool {
    exists|i: int| 0 <= i < globset_globs(s).len() && glob_match(#[trigger] globset_globs(s)[i], path)
}

/// Whether any pattern of the set matches `path`.
pub fn is_match(s: &globset::GlobSet, path: &str) -> (r: bool)
    ensures
        r == set_matches(*s, path@),
{
    globset_is_match(s, path)
}

} // verus!
