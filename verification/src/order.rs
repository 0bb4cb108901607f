//! The order of tracks and files: numeric track keys first, then the
//! "natural" path order of `alphanumeric_sort`.
use vstd::prelude::*;

verus! {

/// A track with its sort key.
pub struct SortEntry {
    /// The key from `get_sort_key`.
    pub key: (u8, u32, String),
    /// The track's path.
    pub path: String,
    /// The track's number of samples, when its stream info was read.
    pub samples: Option<u64>,
}

/// What `alphanumeric_sort::compare_path` answers for two paths: -1, 0 or 1
/// for less, equal and greater (a function of the two paths alone).
pub uninterp spec fn path_order(a: Seq<char>, b: Seq<char>) -> i8;

/// `alphanumeric_sort::compare_path`, its answer as -1, 0 or 1.
#[verifier::external_body]
fn compare_paths(a: &str, b: &str) -> (r: i8)
    ensures
        r == path_order(a@, b@),
        -1 <= r <= 1,
{
    match alphanumeric_sort::compare_path(a, b) {
        std::cmp::Ordering::Less => -1,
        std::cmp::Ordering::Equal => 0,
        std::cmp::Ordering::Greater => 1,
    }
}

/// The numeric part of a key is at most the other's.
pub open spec fn key_le(a: SortEntry, b: SortEntry) -> bool {
    a.key.0 < b.key.0 || (a.key.0 == b.key.0 && a.key.1 <= b.key.1)
}

/// `a` goes after `b`: a greater numeric key, or an equal one and a path that
/// compares greater.
pub open spec fn goes_after(a: SortEntry, b: SortEntry) -> bool {
    a.key.0 > b.key.0 || (a.key.0 == b.key.0 && (a.key.1 > b.key.1 || (a.key.1 == b.key.1
        && path_order(a.path@, b.path@) == 1)))
}

/// The entries are ordered by the numeric part of their keys.
pub open spec fn keys_sorted(s: Seq<SortEntry>) -> bool {
    forall|a: int, b: int| 0 <= a < b < s.len() ==> key_le(#[trigger] s[a], #[trigger] s[b])
}

/// `alphanumeric_sort::compare_path` behaves as a total order on the paths of
/// the entries: swapping two paths reverses the answer, and "not after" is
/// transitive.
pub open spec fn entry_paths_total_on(s: Seq<SortEntry>) -> bool {
    &&& forall|a: SortEntry, b: SortEntry|
        #![trigger s.contains(a), s.contains(b)]
        s.contains(a) && s.contains(b) ==> path_order(a.path@, b.path@) == -path_order(b.path@, a.path@)
    &&& forall|a: SortEntry, b: SortEntry, c: SortEntry|
        #![trigger s.contains(a), s.contains(b), s.contains(c)]
        s.contains(a) && s.contains(b) && s.contains(c) && path_le(a.path@, b.path@) && path_le(b.path@, c.path@)
            ==> path_le(a.path@, c.path@)
}

/// Between entries with the same numeric key, no path goes after a later one.
pub open spec fn ties_path_sorted(s: Seq<SortEntry>) -> bool {
    forall|a: int, b: int|
        0 <= a < b < s.len() && (#[trigger] s[a]).key.0 == (#[trigger] s[b]).key.0 && s[a].key.1 == s[b].key.1
            ==> path_le(s[a].path@, s[b].path@)
}

/// Sequences with the same elements, counted, hold the same elements.
pub proof fn lemma_multiset_contains<A>(a: Seq<A>, b: Seq<A>)
    requires
        a.to_multiset() == b.to_multiset(),
    ensures
        forall|x: A| a.contains(x) <==> b.contains(x),
{
    assert forall|x: A| a.contains(x) <==> b.contains(x) by {
        vstd::seq_lib::to_multiset_contains(a, x);
        vstd::seq_lib::to_multiset_contains(b, x);
        assert(a.to_multiset().count(x) == b.to_multiset().count(x));
    }
}

/// Whether the comparison is a total order on the entries' paths depends only
/// on which entries there are.
pub proof fn lemma_entry_paths_total_multiset(a: Seq<SortEntry>, b: Seq<SortEntry>)
    requires
        a.to_multiset() == b.to_multiset(),
    ensures
        entry_paths_total_on(a) == entry_paths_total_on(b),
{
    lemma_multiset_contains(a, b);
}

/// Whether the comparison is a total order on the paths depends only on which
/// paths there are.
pub proof fn lemma_path_total_multiset(a: Seq<String>, b: Seq<String>)
    requires
        a.to_multiset() == b.to_multiset(),
    ensures
        path_order_total_on(a) == path_order_total_on(b),
{
    lemma_multiset_contains(a, b);
}

/// `perm` says where each element of `r` stood in `v`: `r[k]` is
/// `v[perm[k]]`, no two positions come from the same one, and two elements
/// of which neither goes `after` the other keep the order they had in `v`.
pub open spec fn stable_perm<A>(perm: Seq<int>, r: Seq<A>, v: Seq<A>, after: spec_fn(A, A) -> bool) -> bool {
    &&& perm.len() == r.len()
    &&& forall|k: int| 0 <= k < r.len() ==> 0 <= #[trigger] perm[k] < v.len() && r[k] == v[perm[k]]
    &&& forall|a: int, b: int| 0 <= a < b < r.len() ==> #[trigger] perm[a] != #[trigger] perm[b]
    &&& forall|a: int, b: int|
        0 <= a < b < r.len() && !after(r[a], r[b]) && !after(r[b], r[a]) ==> #[trigger] perm[a] < #[trigger] perm[b]
}

/// Inserting the element that stood at `t` in `v` before every element that
/// goes after it keeps the record of where the elements stood.
proof fn lemma_stable_insert<A>(perm: Seq<int>, out: Seq<A>, v: Seq<A>, t: int, j: int, x: A, after: spec_fn(A, A) -> bool)
    requires
        stable_perm(perm, out, v, after),
        forall|k: int| 0 <= k < out.len() ==> #[trigger] perm[k] < t,
        0 <= t < v.len(),
        v[t] == x,
        0 <= j <= out.len(),
        forall|k: int| j <= k < out.len() ==> after(#[trigger] out[k], x),
    ensures
        stable_perm(perm.insert(j, t), out.insert(j, x), v, after),
        forall|k: int| 0 <= k < out.len() + 1 ==> #[trigger] perm.insert(j, t)[k] < t + 1,
{
    let p2 = perm.insert(j, t);
    let o2 = out.insert(j, x);
    assert forall|k: int| 0 <= k < o2.len() implies 0 <= #[trigger] p2[k] < v.len() && o2[k] == v[p2[k]] by {
        if k < j {
            assert(p2[k] == perm[k] && o2[k] == out[k]);
        } else if k > j {
            assert(p2[k] == perm[k - 1] && o2[k] == out[k - 1]);
        }
    }
    assert forall|k: int| 0 <= k < out.len() + 1 implies #[trigger] p2[k] < t + 1 by {
        if k < j {
            assert(p2[k] == perm[k]);
        } else if k > j {
            assert(p2[k] == perm[k - 1]);
        }
    }
    assert forall|a: int, b: int| 0 <= a < b < o2.len() implies #[trigger] p2[a] != #[trigger] p2[b] by {
        if a < j {
            assert(p2[a] == perm[a]);
        } else if a > j {
            assert(p2[a] == perm[a - 1]);
        }
        if b < j {
            assert(p2[b] == perm[b]);
        } else if b > j {
            assert(p2[b] == perm[b - 1]);
        }
    }
    assert forall|a: int, b: int|
        0 <= a < b < o2.len() && !after(o2[a], o2[b]) && !after(o2[b], o2[a]) implies #[trigger] p2[a]
        < #[trigger] p2[b] by {
        if b < j {
            assert(p2[a] == perm[a] && p2[b] == perm[b] && o2[a] == out[a] && o2[b] == out[b]);
        } else if b == j {
            assert(p2[a] == perm[a]);
        } else if a == j {
            assert(o2[b] == out[b - 1]);
            assert(after(out[b - 1], x));
        } else if a < j {
            assert(p2[a] == perm[a] && p2[b] == perm[b - 1] && o2[a] == out[a] && o2[b] == out[b - 1]);
        } else {
            assert(p2[a] == perm[a - 1] && p2[b] == perm[b - 1] && o2[a] == out[a - 1] && o2[b] == out[b - 1]);
        }
    }
}

/// The entries `r` are the entries `v` sorted stably: `perm` records where
/// each stood, and entries of which neither goes after the other keep their
/// order.
pub open spec fn entries_stable(perm: Seq<int>, r: Seq<SortEntry>, v: Seq<SortEntry>) -> bool {
    stable_perm(perm, r, v, |a: SortEntry, b: SortEntry| goes_after(a, b))
}

/// The paths `r` are the paths `v` sorted stably: `perm` records where each
/// stood, and paths of which neither compares greater than the other keep
/// their order.
pub open spec fn paths_stable(perm: Seq<int>, r: Seq<String>, v: Seq<String>) -> bool {
    stable_perm(perm, r, v, |a: String, b: String| path_order(a@, b@) == 1)
}

/// The path texts `r` are the path texts `v` sorted stably by
/// `alphanumeric_sort::compare_path`: `perm` records where each stood.
pub open spec fn path_views_stable(perm: Seq<int>, r: Seq<Seq<char>>, v: Seq<Seq<char>>) -> bool {
    stable_perm(perm, r, v, |a: Seq<char>, b: Seq<char>| path_order(a, b) == 1)
}

/// A stable sort of paths is a stable sort of their texts.
pub proof fn lemma_views_stable(perm: Seq<int>, r: Seq<String>, v: Seq<String>)
    requires
        paths_stable(perm, r, v),
    ensures
        path_views_stable(perm, crate::text::views_str(r), crate::text::views_str(v)),
{
    let rv = crate::text::views_str(r);
    let vv = crate::text::views_str(v);
    assert forall|k: int| 0 <= k < rv.len() implies 0 <= #[trigger] perm[k] < vv.len() && rv[k] == vv[perm[k]] by {
        assert(r[k] == v[perm[k]]);
    }
    assert forall|a: int, b: int|
        0 <= a < b < rv.len() && !(path_order(rv[a], rv[b]) == 1) && !(path_order(rv[b], rv[a]) == 1) implies
        #[trigger] perm[a] < #[trigger] perm[b] by {
        assert(rv[a] == r[a]@ && rv[b] == r[b]@);
    }
}

/// The path texts `r` are the path texts `t` sorted stably by
/// `alphanumeric_sort::compare_path`: texts of which neither compares greater
/// than the other keep the order they had in `t`.
pub open spec fn stable_path_sort_of(r: Seq<Seq<char>>, t: Seq<Seq<char>>) -> bool {
    exists|perm: Seq<int>| #[trigger] path_views_stable(perm, r, t)
}

/// A stable sort of paths that are the texts `t` is a stable sort of `t`.
pub proof fn lemma_views_stable_exists(r: Seq<String>, v: Seq<String>, t: Seq<Seq<char>>)
    requires
        exists|perm: Seq<int>| #[trigger] paths_stable(perm, r, v),
        crate::text::views_str(v) == t,
    ensures
        stable_path_sort_of(crate::text::views_str(r), t),
{
    let perm = choose|perm: Seq<int>| #[trigger] paths_stable(perm, r, v);
    lemma_views_stable(perm, r, v);
}

fn entry_goes_after(a: &SortEntry, b: &SortEntry) -> (r: bool)
    ensures
        r == goes_after(*a, *b),
{
    if a.key.0 != b.key.0 {
        return a.key.0 > b.key.0;
    }
    if a.key.1 != b.key.1 {
        return a.key.1 > b.key.1;
    }
    compare_paths(a.path.as_str(), b.path.as_str()) == 1
}

/// Orders tracks by their keys and, between equal keys, by
/// `alphanumeric_sort::compare_path` of their paths; a stable insertion sort.
/// The result holds the same entries, ordered by the numeric part of the keys
/// and, when the path comparison is a total order on the paths (as
/// `slice::sort_by` needs), by path between equal numeric keys; entries of
/// which neither goes after the other keep the order they came in.
pub fn sort_tracks(v: Vec<SortEntry>) -> (r: Vec<SortEntry>)
    ensures
        r@.to_multiset() == v@.to_multiset(),
        keys_sorted(r@),
        entry_paths_total_on(v@) ==> ties_path_sorted(r@),
        exists|perm: Seq<int>| #[trigger] entries_stable(perm, r@, v@),
{
    broadcast use vstd::seq_lib::group_to_multiset_ensures;
    let mut out: Vec<SortEntry> = Vec::new();
    let mut rest = v;
    let ghost initial = rest@;
    let ghost mut taken: Seq<SortEntry> = Seq::empty();
    let ghost mut perm: Seq<int> = Seq::empty();
    while rest.len() > 0
        invariant
            initial == taken + rest@,
            out@.to_multiset() == taken.to_multiset(),
            entries_stable(perm, out@, initial),
            forall|k: int| 0 <= k < out@.len() ==> #[trigger] perm[k] < taken.len(),
            keys_sorted(out@),
            forall|k: int| 0 <= k < out@.len() ==> initial.contains(#[trigger] out@[k]),
            entry_paths_total_on(initial) ==> ties_path_sorted(out@),
        decreases rest.len(),
    {
        assert(initial[taken.len() as int] == rest@[0]);
        let x = rest.remove(0);
        let ghost xg = x;
        assert(initial.contains(xg));
        let mut j: usize = out.len();
        while j > 0 && entry_goes_after(&out[j - 1], &x)
            invariant
                j <= out.len(),
                x == xg,
                forall|k: int| j <= k < out@.len() ==> goes_after(#[trigger] out@[k], x),
            decreases j,
        {
            j = j - 1;
        }
        let ghost old_out = out@;
        proof {
            assert forall|k: int| 0 <= k < j implies key_le(#[trigger] old_out[k], x) by {
                assert(key_le(old_out[k], old_out[j - 1]) || k == j - 1);
                assert(!goes_after(old_out[j - 1], x));
            }
        }
        let ghost tk = taken;
        out.insert(j, x);
        proof {
            lemma_stable_insert(perm, old_out, initial, tk.len() as int, j as int, xg,
                |a: SortEntry, b: SortEntry| goes_after(a, b));
            perm = perm.insert(j as int, tk.len() as int);
            taken = tk.push(xg);
            assert(initial == taken + rest@) by {
                assert(initial =~= tk + (seq![xg] + rest@));
                assert(taken + rest@ =~= tk + (seq![xg] + rest@));
            }
            assert(out@ == old_out.insert(j as int, xg));
            vstd::seq_lib::to_multiset_insert(old_out, j as int, xg);
            vstd::seq_lib::to_multiset_build(tk, xg);
            assert(out@.to_multiset() == taken.to_multiset());
            assert forall|k: int| 0 <= k < out@.len() implies initial.contains(#[trigger] out@[k]) by {
                if k < j {
                    assert(out@[k] == old_out[k]);
                } else if k > j {
                    assert(out@[k] == old_out[k - 1]);
                }
            }
            if entry_paths_total_on(initial) {
                assert forall|a: int, b: int|
                    0 <= a < b < out@.len() && (#[trigger] out@[a]).key.0 == (#[trigger] out@[b]).key.0
                        && out@[a].key.1 == out@[b].key.1 implies path_le(out@[a].path@, out@[b].path@) by {
                    if b < j {
                        assert(out@[a] == old_out[a] && out@[b] == old_out[b]);
                    } else if b == j {
                        assert(out@[a] == old_out[a]);
                        let p = old_out[j - 1];
                        assert(initial.contains(old_out[a]));
                        assert(initial.contains(p));
                        assert(!goes_after(p, xg));
                        if a < j - 1 {
                            assert(key_le(old_out[a], p));
                            assert(path_le(old_out[a].path@, p.path@));
                        }
                    } else if a == j {
                        let q = old_out[b - 1];
                        assert(out@[b] == q);
                        assert(initial.contains(q));
                        assert(goes_after(q, xg));
                        assert(path_order(xg.path@, q.path@) == -path_order(q.path@, xg.path@));
                    } else if a < j {
                        assert(out@[a] == old_out[a] && out@[b] == old_out[b - 1]);
                    } else {
                        assert(out@[a] == old_out[a - 1] && out@[b] == old_out[b - 1]);
                    }
                }
            }
            assert forall|a: int, b: int| 0 <= a < b < out@.len() implies key_le(#[trigger] out@[a], #[trigger] out@[b]) by {
                if b < j {
                    assert(out@[a] == old_out[a] && out@[b] == old_out[b]);
                } else if b == j {
                    assert(out@[a] == old_out[a]);
                } else if a == j {
                    assert(out@[b] == old_out[b - 1]);
                    assert(goes_after(old_out[b - 1], xg));
                } else if a < j {
                    assert(out@[a] == old_out[a] && out@[b] == old_out[b - 1]);
                    if j < old_out.len() {
                        assert(goes_after(old_out[j as int], xg));
                        assert(key_le(xg, old_out[j as int]));
                        if b - 1 > j {
                            assert(key_le(old_out[j as int], old_out[b - 1]));
                        }
                    }
                } else {
                    assert(out@[a] == old_out[a - 1] && out@[b] == old_out[b - 1]);
                }
            }
        }
    }
    assert(taken =~= initial);
    assert(entries_stable(perm, out@, v@));
    out
}

/// `a` does not go after `b` in the order of `alphanumeric_sort::compare_path`.
pub open spec fn path_le(a: Seq<char>, b: Seq<char>) -> bool {
    path_order(a, b) != 1
}

/// `alphanumeric_sort::compare_path` behaves as a total order on the paths:
/// swapping two paths reverses the answer, and "not after" is transitive.
pub open spec fn path_order_total_on(s: Seq<String>) -> bool {
    &&& forall|a: String, b: String|
        #![trigger s.contains(a), s.contains(b)]
        s.contains(a) && s.contains(b) ==> path_order(a@, b@) == -path_order(b@, a@)
    &&& forall|a: String, b: String, c: String|
        #![trigger s.contains(a), s.contains(b), s.contains(c)]
        s.contains(a) && s.contains(b) && s.contains(c) && path_le(a@, b@) && path_le(b@, c@) ==> path_le(a@, c@)
}

/// No path goes after a later one.
pub open spec fn paths_sorted(s: Seq<String>) -> bool {
    forall|i: int, j: int| 0 <= i < j < s.len() ==> path_le(#[trigger] s[i]@, #[trigger] s[j]@)
}

/// Orders paths by `alphanumeric_sort::compare_path`; a stable insertion
/// sort. The result holds the same paths, and when the comparison is a total
/// order on them (as `slice::sort_by` needs), it is sorted by it; paths of
/// which neither compares greater than the other keep the order they came in.
pub fn sort_paths(v: Vec<String>) -> (r: Vec<String>)
    ensures
        r@.to_multiset() == v@.to_multiset(),
        path_order_total_on(v@) ==> paths_sorted(r@),
        exists|perm: Seq<int>| #[trigger] paths_stable(perm, r@, v@),
{
    broadcast use vstd::seq_lib::group_to_multiset_ensures;
    let mut out: Vec<String> = Vec::new();
    let mut rest = v;
    let ghost initial = rest@;
    let ghost mut taken: Seq<String> = Seq::empty();
    let ghost mut perm: Seq<int> = Seq::empty();
    while rest.len() > 0
        invariant
            initial == taken + rest@,
            out@.to_multiset() == taken.to_multiset(),
            paths_stable(perm, out@, initial),
            forall|k: int| 0 <= k < out@.len() ==> #[trigger] perm[k] < taken.len(),
            forall|k: int| 0 <= k < out@.len() ==> initial.contains(#[trigger] out@[k]),
            path_order_total_on(initial) ==> paths_sorted(out@),
        decreases rest.len(),
    {
        assert(initial[taken.len() as int] == rest@[0]);
        let x = rest.remove(0);
        let ghost xg = x;
        assert(initial.contains(xg));
        let mut j: usize = out.len();
        while j > 0 && compare_paths(out[j - 1].as_str(), x.as_str()) == 1
            invariant
                j <= out.len(),
                x == xg,
                forall|k: int| j <= k < out@.len() ==> path_order(#[trigger] out@[k]@, xg@) == 1,
            decreases j,
        {
            j = j - 1;
        }
        let ghost old_out = out@;
        let ghost tk = taken;
        proof {
            if j > 0 {
                assert(!(path_order(old_out[j - 1]@, xg@) == 1));
            }
        }
        out.insert(j, x);
        proof {
            lemma_stable_insert(perm, old_out, initial, tk.len() as int, j as int, xg,
                |a: String, b: String| path_order(a@, b@) == 1);
            perm = perm.insert(j as int, tk.len() as int);
            taken = tk.push(xg);
            assert(initial =~= tk + (seq![xg] + rest@));
            assert(taken + rest@ =~= tk + (seq![xg] + rest@));
            vstd::seq_lib::to_multiset_insert(old_out, j as int, xg);
            vstd::seq_lib::to_multiset_build(tk, xg);
            assert(out@ == old_out.insert(j as int, xg));
            assert forall|k: int| 0 <= k < out@.len() implies initial.contains(#[trigger] out@[k]) by {
                if k < j {
                    assert(out@[k] == old_out[k]);
                } else if k > j {
                    assert(out@[k] == old_out[k - 1]);
                }
            }
            if path_order_total_on(initial) {
                assert forall|a: int, b: int| 0 <= a < b < out@.len() implies path_le(#[trigger] out@[a]@, #[trigger] out@[b]@) by {
                    if b < j {
                        assert(out@[a] == old_out[a] && out@[b] == old_out[b]);
                    } else if b == j {
                        assert(out@[a] == old_out[a]);
                        let p = old_out[j - 1];
                        assert(initial.contains(old_out[a]));
                        assert(initial.contains(p));
                        assert(path_le(p@, xg@));
                        if a < j - 1 {
                            assert(path_le(old_out[a]@, p@));
                        }
                    } else if a == j {
                        let q = old_out[b - 1];
                        assert(out@[b] == q);
                        assert(initial.contains(q));
                        assert(path_order(q@, xg@) == 1);
                        assert(path_order(xg@, q@) == -path_order(q@, xg@));
                    } else if a < j {
                        assert(out@[a] == old_out[a] && out@[b] == old_out[b - 1]);
                    } else {
                        assert(out@[a] == old_out[a - 1] && out@[b] == old_out[b - 1]);
                    }
                }
            }
        }
    }
    assert(taken =~= initial);
    assert(paths_stable(perm, out@, v@));
    out
}

} // verus!
