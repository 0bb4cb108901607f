//! Names derived from album and source metadata: the sanitized source name,
//! the truncated hash and the link name built from both.
use vstd::prelude::*;
use crate::text::{chars_of, string_of, append_str, split_vec, nonempty_parts_vec, join_vec, trim_vec, take_chars_vec, trim_start_matches_seq, replace_char, join_with, nonempty_parts, split_on, lemma_split_on, lemma_nonempty_parts, take_chars, trim, map_char, trim_start_matches};

verus! {

/// What `str::to_lowercase` returns for a string (Unicode lower-case mapping).
pub uninterp spec fn lowercase(s: Seq<char>) -> Seq<char>;

/// Whether `char::is_alphanumeric` holds (Unicode `Alphabetic` or numeric).
pub uninterp spec fn is_alphanumeric(c: char) -> bool;

/// `str::to_lowercase`: a function of its argument alone, locale-independent;
/// nothing more of the mapping is stated.
pub assume_specification[ str::to_lowercase ](s: &str) -> (r: String)
    ensures
        r@ == lowercase(s@),
;

/// `char::is_alphanumeric`: a property of the character alone; its Unicode
/// tables are not written out.
pub assume_specification[ char::is_alphanumeric ](c: char) -> (r: bool)
    ensures
        r == is_alphanumeric(c),
;

/// Every character that is not alphanumeric replaced by `-`.
pub open spec fn dash_map(s: Seq<char>) -> Seq<char> {
    s.map_values(|c: char| if is_alphanumeric(c) { c } else { '-' })
}

/// Every run of characters that are not alphanumeric (and of `-`) turned into
/// one `-`, with no `-` at either end.
pub open spec fn dashed(s: Seq<char>) -> Seq<char> {
    join_with(nonempty_parts(split_on(dash_map(s), '-')), seq!['-'])
}

/// The sanitized form of a name: lower-cased, every run of characters that are
/// not alphanumeric turned into one `-`, and no `-` at either end.
pub open spec fn sanitized(name: Seq<char>) -> Seq<char> {
    dashed(lowercase(name))
}

/// A string with no `-` at either end and no two `-` in a row.
pub open spec fn dash_clean(s: Seq<char>) -> bool {
    &&& (s.len() > 0 ==> s[0] != '-' && s.last() != '-')
    &&& forall|i: int| #![trigger s[i]] 0 <= i < s.len() - 1 ==> !(s[i] == '-' && s[i + 1] == '-')
}

/// Turns every run of characters that are not alphanumeric into a single `-`,
/// with none at either end.
pub fn dashed_vec(chars: &Vec<char>) -> (r: Vec<char>)
    ensures
        r@ == dashed(chars@),
{
    let mut mapped: Vec<char> = Vec::new();
    let mut i: usize = 0;
    while i < chars.len()
        invariant
            i <= chars.len(),
            mapped@ == dash_map(chars@.subrange(0, i as int)),
        decreases chars.len() - i,
    {
        let c = chars[i];
        if c.is_alphanumeric() {
            mapped.push(c);
        } else {
            mapped.push('-');
        }
        assert(dash_map(chars@.subrange(0, i + 1)) =~= dash_map(chars@.subrange(0, i as int)).push(
            if is_alphanumeric(c) { c } else { '-' },
        ));
        i = i + 1;
    }
    assert(chars@.subrange(0, chars@.len() as int) =~= chars@);
    let parts = split_vec(&mapped, '-');
    let kept = nonempty_parts_vec(&parts);
    let mut sep: Vec<char> = Vec::new();
    sep.push('-');
    assert(sep@ =~= seq!['-']);
    join_vec(&kept, &sep)
}

/// Lower-cases `name` and turns every run of characters that are not
/// alphanumeric into a single `-`, with none at either end.
pub fn sanitize_source_name(name: &str) -> (r: String)
    ensures
        r@ == sanitized(name@),
{
    let lower = name.to_lowercase();
    let chars = chars_of(lower.as_str());
    let joined = dashed_vec(&chars);
    string_of(joined.as_slice())
}

/// Joining non-empty parts that hold no `-` with `-` gives a string with no `-`
/// at either end and no two `-` in a row.
proof fn lemma_join_dash_clean(p: Seq<Seq<char>>)
    requires
        forall|i: int| 0 <= i < p.len() ==> (#[trigger] p[i]).len() > 0 && !p[i].contains('-'),
    ensures
        dash_clean(join_with(p, seq!['-'])),
        p.len() > 0 ==> join_with(p, seq!['-']).len() > 0,
    decreases p.len(),
{
    if p.len() == 1 {
        let s = p[0];
        assert(!s.contains('-'));
        assert(s[0] != '-' && s[s.len() - 1] != '-') by {
            if s[0] == '-' {
                assert(s.contains('-'));
            }
            if s[s.len() - 1] == '-' {
                assert(s.contains('-'));
            }
        }
        assert forall|i: int| #![trigger s[i]] 0 <= i < s.len() - 1 implies !(s[i] == '-' && s[i + 1] == '-') by {
            if s[i] == '-' {
                assert(s.contains('-'));
            }
        }
    } else if p.len() > 1 {
        let prev = p.drop_last();
        assert forall|i: int| 0 <= i < prev.len() implies (#[trigger] prev[i]).len() > 0 && !prev[i].contains('-') by {
            assert(prev[i] == p[i]);
        }
        lemma_join_dash_clean(prev);
        let a = join_with(prev, seq!['-']);
        let l = p.last();
        assert(l == p[p.len() - 1]);
        let s = a + seq!['-'] + l;
        assert(s == join_with(p, seq!['-']));
        assert(!l.contains('-'));
        assert(s[0] != '-') by {
            assert(s[0] == a[0]);
        }
        assert(s.last() != '-') by {
            assert(s.last() == l[l.len() - 1]);
            if l[l.len() - 1] == '-' {
                assert(l.contains('-'));
            }
        }
        assert forall|i: int| #![trigger s[i]] 0 <= i < s.len() - 1 implies !(s[i] == '-' && s[i + 1] == '-') by {
            if i < a.len() - 1 {
                assert(s[i] == a[i] && s[i + 1] == a[i + 1]);
            } else if i == a.len() - 1 {
                assert(s[i] == a.last());
            } else if i == a.len() {
                assert(s[i + 1] == l[0]);
                if l[0] == '-' {
                    assert(l.contains('-'));
                }
            } else {
                let k = i - a.len() - 1;
                assert(s[i] == l[k]);
                if l[k] == '-' {
                    assert(l.contains('-'));
                }
            }
        }
    }
}

/// A dashed string has no `-` at either end and no two `-` in a row.
pub proof fn lemma_dashed_clean(s: Seq<char>)
    ensures
        dash_clean(dashed(s)),
{
    let parts = split_on(dash_map(s), '-');
    lemma_split_on(dash_map(s), '-');
    lemma_nonempty_parts(parts);
    let kept = nonempty_parts(parts);
    assert forall|i: int| 0 <= i < kept.len() implies (#[trigger] kept[i]).len() > 0 && !kept[i].contains('-') by {
        assert(parts.contains(kept[i]));
        let k = choose|k: int| 0 <= k < parts.len() && parts[k] == kept[i];
        assert(!parts[k].contains('-'));
    }
    lemma_join_dash_clean(kept);
}

/// A sanitized name has no `-` at either end and no two `-` in a row.
pub proof fn lemma_sanitized_dash_clean(name: Seq<char>)
    ensures
        dash_clean(sanitized(name)),
{
    lemma_dashed_clean(lowercase(name));
}

/// The hash part of a link name: `nohash` when there is no hash; otherwise the
/// first 32 characters of the trimmed base-32 form when the conversion gave
/// one, else the hash without its `sha256-` prefixes, cut to 32 characters,
/// with `/` made `_` and `+` made `-`.
pub open spec fn nix32_truncated(hash: Seq<char>, converted: Option<Seq<char>>) -> Seq<char> {
    if hash.len() == 0 {
        "nohash"@
    } else {
        match converted {
            Some(out) => take_chars(trim(out), 32),
            None => map_char(
                map_char(take_chars(trim_start_matches(hash, "sha256-"@), 32), '/', '_'),
                '+',
                '-',
            ),
        }
    }
}

/// The truncated hash used in link names. `converted` is the output of
/// `nix hash to-base32` for `hash` when that command succeeded.
pub fn get_nix32_truncate(hash: &str, converted: Option<&str>) -> (r: String)
    ensures
        r@ == nix32_truncated(hash@, match converted { Some(c) => Some(c@), None => None }),
{
    let h = chars_of(hash);
    if h.len() == 0 {
        return crate::text::to_string("nohash");
    }
    match converted {
        Some(out) => {
            let o = chars_of(out);
            let t = trim_vec(&o);
            let r = take_chars_vec(&t, 32);
            string_of(r.as_slice())
        },
        None => {
            let prefix = chars_of("sha256-");
            let stripped = trim_start_matches_seq(&h, &prefix);
            let cut = take_chars_vec(&stripped, 32);
            let a = replace_char(&cut, '/', '_');
            let b = replace_char(&a, '+', '-');
            string_of(b.as_slice())
        },
    }
}

/// A truncated hash has at most 32 characters, and the fallback form holds
/// neither `/` nor `+`.
pub proof fn lemma_nix32_truncated(hash: Seq<char>, converted: Option<Seq<char>>)
    requires
        hash.len() > 0,
    ensures
        nix32_truncated(hash, converted).len() <= 32,
        converted is None ==> !nix32_truncated(hash, converted).contains('/')
            && !nix32_truncated(hash, converted).contains('+'),
{
    let r = nix32_truncated(hash, converted);
    if converted is None {
        if r.contains('/') {
            let k = choose|k: int| 0 <= k < r.len() && r[k] == '/';
        }
        if r.contains('+') {
            let k = choose|k: int| 0 <= k < r.len() && r[k] == '+';
        }
    }
}

/// The name of a source's link: the sanitized name and the truncated hash
/// joined by `-`.
pub fn source_link_name(sanitized_name: &str, truncated_hash: &str) -> (r: String)
    ensures
        r@ == sanitized_name@ + seq!['-'] + truncated_hash@,
{
    let mut out = chars_of(sanitized_name);
    out.push('-');
    append_str(&mut out, truncated_hash);
    string_of(out.as_slice())
}

} // verus!
