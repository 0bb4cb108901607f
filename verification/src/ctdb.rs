//! The CUETools database identifier of a rip (its TOC id): which files of a
//! source count as tracks, the order of the tracks, their offsets on the
//! disc, and the id derived from them.
use vstd::prelude::*;
use crate::text::{chars_of, string_of, split_vec, split_on, lemma_split_on, parse_u32, parse_u32_vec, file_name, file_name_vec, subrange_vec, replace_char, map_char};
use crate::glob::{build_globset, is_match, glob_patterns, all_valid, globset_build_ok, glob_match, globset_globs};
use crate::order::{SortEntry, sort_tracks, keys_sorted, entry_paths_total_on, ties_path_sorted, lemma_entry_paths_total_multiset, path_order, stable_perm, entries_stable, goes_after};

verus! {

// ---------------------------------------------------------------------------
// Track selection

/// A file found under the source directory, with what its tags say.
pub struct TrackCandidate {
    /// The file's path.
    pub path: String,
    /// The path relative to the source directory, when it lies inside it.
    pub rel: Option<String>,
    /// The first `TRACKNUMBER` tag of the file, when it has one.
    pub track_number: Option<String>,
    /// The number of samples of the file, when its stream info was read.
    pub samples: Option<u64>,
}

impl Clone for TrackCandidate {
    fn clone(&self) -> (r: Self)
        ensures
            r == *self,
    {
        let rel = match &self.rel {
            Some(s) => Some(s.clone()),
            None => None,
        };
        let track_number = match &self.track_number {
            Some(s) => Some(s.clone()),
            None => None,
        };
        TrackCandidate { path: self.path.clone(), rel, track_number, samples: self.samples }
    }
}

/// Position of the first occurrence of `c` in `s`, or -1.
pub open spec fn first_index_of(s: Seq<char>, c: char) -> int
    decreases s.len(),
{
    if s.len() == 0 {
        -1
    } else if s[0] == c {
        0
    } else {
        let k = first_index_of(s.subrange(1, s.len() as int), c);
        if k < 0 {
            -1
        } else {
            k + 1
        }
    }
}

proof fn lemma_first_index_of(s: Seq<char>, c: char)
    ensures
        -1 <= first_index_of(s, c) < s.len(),
        first_index_of(s, c) >= 0 ==> s[first_index_of(s, c)] == c,
        forall|k: int| 0 <= k < s.len() && (first_index_of(s, c) < 0 || k < first_index_of(s, c)) ==> s[k] != c,
    decreases s.len(),
{
    if s.len() > 0 && s[0] != c {
        let t = s.subrange(1, s.len() as int);
        lemma_first_index_of(t, c);
        assert forall|k: int| 0 <= k < s.len() && (first_index_of(s, c) < 0 || k < first_index_of(s, c)) implies s[k] != c by {
            if k > 0 {
                assert(s[k] == t[k - 1]);
            }
        }
    }
}

fn first_index_of_vec(s: &Vec<char>, c: char) -> (r: Option<usize>)
    ensures
        match r {
            Some(i) => i as int == first_index_of(s@, c),
            None => first_index_of(s@, c) < 0,
        },
{
    proof { lemma_first_index_of(s@, c); }
    let mut i: usize = 0;
    while i < s.len()
        invariant
            i <= s.len(),
            forall|k: int| 0 <= k < i ==> s@[k] != c,
            -1 <= first_index_of(s@, c) < s@.len(),
            first_index_of(s@, c) >= 0 ==> s@[first_index_of(s@, c)] == c,
            forall|k: int| 0 <= k < s.len() && (first_index_of(s@, c) < 0 || k < first_index_of(s@, c)) ==> s@[k] != c,
        decreases s.len() - i,
    {
        if s[i] == c {
            return Some(i);
        }
        i = i + 1;
    }
    None
}

/// A relative path without its first component (`components().next()` then
/// `as_path()`).
pub open spec fn after_first_component(r: Seq<char>) -> Seq<char> {
    let i = first_index_of(r, '/');
    if i < 0 {
        Seq::<char>::empty()
    } else {
        r.subrange(i + 1, r.len() as int)
    }
}

fn after_first_component_vec(r: &Vec<char>) -> (o: Vec<char>)
    ensures
        o@ == after_first_component(r@),
{
    proof { lemma_first_index_of(r@, '/'); }
    match first_index_of_vec(r, '/') {
        Some(i) => {
            assert(i < r.len());
            subrange_vec(r, i + 1, r.len())
        },
        None => Vec::new(),
    }
}

/// Some pattern matches `path`.
pub open spec fn patterns_match(pats: Seq<Seq<char>>, path: Seq<char>) -> bool {
    exists|i: int| 0 <= i < pats.len() && glob_match(#[trigger] pats[i], path)
}

/// The patterns a track filter stands for, when it compiles; no filter (every
/// file a track) when there is none or it does not compile.
pub open spec fn active_patterns(filter: Option<Seq<char>>) -> Option<Seq<Seq<char>>> {
    match filter {
        Some(f) => if all_valid(glob_patterns(f)) && globset_build_ok(glob_patterns(f)) {
            Some(glob_patterns(f))
        } else {
            None
        },
        None => None,
    }
}

/// Whether a candidate counts as a track: always without patterns; else a
/// pattern matches its relative path, or that path without its first
/// component (when something is left), or, outside the source directory, its
/// full path.
pub open spec fn candidate_selected(c: TrackCandidate, pats: Option<Seq<Seq<char>>>) -> bool {
    match pats {
        None => true,
        Some(p) => match c.rel {
            Some(r) => patterns_match(p, r@) || (after_first_component(r@).len() > 0 && patterns_match(
                p,
                after_first_component(r@),
            )),
            None => patterns_match(p, c.path@),
        },
    }
}

/// The candidates that count as tracks, in order.
pub open spec fn selected_tracks(cands: Seq<TrackCandidate>, pats: Option<Seq<Seq<char>>>) -> Seq<TrackCandidate>
    decreases cands.len(),
{
    if cands.len() == 0 {
        cands
    } else {
        let prev = selected_tracks(cands.drop_last(), pats);
        if candidate_selected(cands.last(), pats) {
            prev.push(cands.last())
        } else {
            prev
        }
    }
}

/// The files among `cands` that count as tracks under the optional filter.
pub fn select_track_files(cands: &Vec<TrackCandidate>, filter: Option<&str>) -> (r: Vec<TrackCandidate>)
    ensures
        r@ == selected_tracks(cands@, active_patterns(match filter { Some(f) => Some(f@), None => None })),
{
    let ghost fv = match filter {
        Some(f) => Some(f@),
        None => None,
    };
    let set = match filter {
        Some(f) => match build_globset(f) {
            Ok(s) => Some(s),
            Err(_) => None,
        },
        None => None,
    };
    let ghost pats = active_patterns(fv);
    assert(match set {
        Some(s) => pats == Some(globset_globs(s)),
        None => pats is None,
    });
    let mut out: Vec<TrackCandidate> = Vec::new();
    let mut i: usize = 0;
    while i < cands.len()
        invariant
            i <= cands.len(),
            pats == active_patterns(fv),
            match set {
                Some(s) => pats == Some(globset_globs(s)),
                None => pats is None,
            },
            out@ == selected_tracks(cands@.subrange(0, i as int), pats),
        decreases cands.len() - i,
    {
        let c = &cands[i];
        let keep = match &set {
            None => true,
            Some(s) => match &c.rel {
                Some(r) => {
                    if is_match(s, r.as_str()) {
                        true
                    } else {
                        let rv = chars_of(r.as_str());
                        let sub = after_first_component_vec(&rv);
                        if sub.len() > 0 {
                            let subs = string_of(sub.as_slice());
                            is_match(s, subs.as_str())
                        } else {
                            false
                        }
                    }
                },
                None => is_match(s, c.path.as_str()),
            },
        };
        assert(keep == candidate_selected(cands@[i as int], pats));
        let ghost t = cands@.subrange(0, i + 1);
        assert(t.drop_last() =~= cands@.subrange(0, i as int));
        assert(t.last() == cands@[i as int]);
        if keep {
            out.push(c.clone());
        }
        i = i + 1;
    }
    assert(cands@.subrange(0, cands@.len() as int) =~= cands@);
    out
}

// ---------------------------------------------------------------------------
// Track order

/// The sort key of a track: `(0, n, "")` when its first `TRACKNUMBER` tag
/// starts with a number `n` (before any `/`), else `(1, 0, file name)`.
pub open spec fn sort_key_of(track_number: Option<Seq<char>>, path: Seq<char>) -> (u8, u32, Seq<char>) {
    let fallback = (1u8, 0u32, match file_name(path) {
        Some(n) => n,
        None => Seq::<char>::empty(),
    });
    match track_number {
        Some(t) => match parse_u32(split_on(t, '/')[0]) {
            Some(n) => (0u8, n, Seq::<char>::empty()),
            None => fallback,
        },
        None => fallback,
    }
}

/// The sort key of a track file, from the first value of its `TRACKNUMBER`
/// tag when the file has one.
pub fn get_sort_key(track_number: Option<&str>, path: &str) -> (r: (u8, u32, String))
    ensures
        (r.0, r.1, r.2@) == sort_key_of(match track_number { Some(t) => Some(t@), None => None }, path@),
{
    let fallback_name = match file_name_vec(&chars_of(path)) {
        Some(n) => string_of(n.as_slice()),
        None => string_of(Vec::<char>::new().as_slice()),
    };
    match track_number {
        Some(t) => {
            let tv = chars_of(t);
            let parts = split_vec(&tv, '/');
            proof { lemma_split_on(tv@, '/'); }
            assert(parts@[0]@ == split_on(tv@, '/')[0]);
            match parse_u32_vec(&parts[0]) {
                Some(n) => (0, n, string_of(Vec::<char>::new().as_slice())),
                None => (1, 0, fallback_name),
            }
        },
        None => (1, 0, fallback_name),
    }
}

// ---------------------------------------------------------------------------
// Offsets and the TOC id

/// The offset after the pregap and all the tracks whose stream info was read
/// (each counts its samples divided by 588, the samples of one sector).
pub open spec fn toc_leadout(samples: Seq<Option<u64>>) -> int
    decreases samples.len(),
{
    if samples.len() == 0 {
        150
    } else {
        toc_leadout(samples.drop_last()) + match samples.last() {
            Some(t) => t / 588,
            None => 0,
        }
    }
}

/// The start offsets of the tracks whose stream info was read.
pub open spec fn toc_offsets(samples: Seq<Option<u64>>) -> Seq<int>
    decreases samples.len(),
{
    if samples.len() == 0 {
        Seq::<int>::empty()
    } else {
        let prev = toc_offsets(samples.drop_last());
        match samples.last() {
            Some(_) => prev.push(toc_leadout(samples.drop_last())),
            None => prev,
        }
    }
}

/// The sectors (588 samples each, whole) of the first `j` tracks.
pub open spec fn sectors_before(samples: Seq<Option<u64>>, j: int) -> int
    decreases j,
{
    if j <= 0 {
        0
    } else {
        sectors_before(samples, j - 1) + match samples[j - 1] {
            Some(t) => (t / 588) as int,
            None => 0,
        }
    }
}

/// How many of the first `j` tracks had their stream info read.
pub open spec fn read_before(samples: Seq<Option<u64>>, j: int) -> int
    decreases j,
{
    if j <= 0 {
        0
    } else {
        read_before(samples, j - 1) + if samples[j - 1] is Some { 1int } else { 0int }
    }
}

proof fn lemma_before_prefix(samples: Seq<Option<u64>>, j: int)
    requires
        0 <= j < samples.len(),
    ensures
        sectors_before(samples.drop_last(), j) == sectors_before(samples, j),
        read_before(samples.drop_last(), j) == read_before(samples, j),
    decreases j,
{
    if j > 0 {
        lemma_before_prefix(samples, j - 1);
        assert(samples.drop_last()[j - 1] == samples[j - 1]);
    }
}

/// The lead-out is 150 plus the sectors of all tracks; there is one offset
/// per read track, and the offset of a read track is 150 plus the sectors of
/// all tracks before it.
pub proof fn lemma_toc_offsets_sums(samples: Seq<Option<u64>>)
    ensures
        toc_leadout(samples) == 150 + sectors_before(samples, samples.len() as int),
        toc_offsets(samples).len() == read_before(samples, samples.len() as int),
        forall|j: int|
            0 <= j < samples.len() && #[trigger] samples[j] is Some ==> toc_offsets(samples)[read_before(samples, j)]
                == 150 + sectors_before(samples, j),
    decreases samples.len(),
{
    if samples.len() > 0 {
        let p = samples.drop_last();
        let n = samples.len() - 1;
        lemma_toc_offsets_sums(p);
        lemma_before_prefix(samples, n);
        assert(samples.last() == samples[n]);
        assert forall|j: int|
            0 <= j < samples.len() && #[trigger] samples[j] is Some implies toc_offsets(samples)[read_before(samples, j)]
                == 150 + sectors_before(samples, j) by {
            let po = toc_offsets(p);
            if j < n {
                assert(p[j] == samples[j]);
                lemma_before_prefix(samples, j);
                lemma_read_before_bound(p, j);
                assert(po[read_before(p, j)] == 150 + sectors_before(p, j));
                let i = read_before(p, j);
                assert(po.len() == read_before(p, p.len() as int));
                lemma_read_before_mono(p, 0, j);
                assert(0 <= i < po.len());
                match samples.last() {
                    Some(_) => {
                        assert(toc_offsets(samples) == po.push(toc_leadout(p)));
                        assert(toc_offsets(samples)[i] == po[i]);
                    },
                    None => {
                        assert(toc_offsets(samples) == po);
                    },
                }
            } else {
                assert(j == n);
                assert(toc_offsets(samples) == po.push(toc_leadout(p)));
                assert(read_before(samples, n) == po.len());
            }
        }
    }
}

proof fn lemma_read_before_bound(samples: Seq<Option<u64>>, j: int)
    requires
        0 <= j < samples.len(),
        samples[j] is Some,
    ensures
        read_before(samples, j) < read_before(samples, samples.len() as int),
    decreases samples.len() - j,
{
    lemma_read_before_mono(samples, j + 1, samples.len() as int);
}

proof fn lemma_read_before_mono(samples: Seq<Option<u64>>, a: int, b: int)
    requires
        0 <= a <= b,
    ensures
        read_before(samples, a) <= read_before(samples, b),
    decreases b - a,
{
    if a < b {
        lemma_read_before_mono(samples, a, b - 1);
    }
}

/// Offsets never decrease, start at 150 and stay within the lead-out.
pub proof fn lemma_toc_offsets(samples: Seq<Option<u64>>)
    ensures
        toc_leadout(samples) >= 150,
        forall|i: int| 0 <= i < toc_offsets(samples).len() ==> 150 <= #[trigger] toc_offsets(samples)[i]
            <= toc_leadout(samples),
        forall|i: int, j: int| 0 <= i <= j < toc_offsets(samples).len() ==> #[trigger] toc_offsets(samples)[i]
            <= #[trigger] toc_offsets(samples)[j],
    decreases samples.len(),
{
    if samples.len() > 0 {
        let p = samples.drop_last();
        lemma_toc_offsets(p);
        let po = toc_offsets(p);
        let o = toc_offsets(samples);
        assert(toc_leadout(samples) >= toc_leadout(p));
        match samples.last() {
            Some(_) => {
                assert(o == po.push(toc_leadout(p)));
                assert forall|i: int| 0 <= i < o.len() implies 150 <= #[trigger] o[i] <= toc_leadout(samples) by {
                    if i < po.len() {
                        assert(o[i] == po[i]);
                    }
                }
                assert forall|i: int, j: int| 0 <= i <= j < o.len() implies #[trigger] o[i] <= #[trigger] o[j] by {
                    if j < po.len() {
                        assert(o[i] == po[i] && o[j] == po[j]);
                    } else if i < po.len() {
                        assert(o[i] == po[i]);
                    }
                }
            },
            None => {
                assert(o == po);
            },
        }
    }
}

/// The lead-out of a prefix is at most the whole lead-out.
pub proof fn lemma_toc_leadout_prefix(samples: Seq<Option<u64>>, j: int)
    requires
        0 <= j <= samples.len(),
    ensures
        toc_leadout(samples.subrange(0, j)) <= toc_leadout(samples),
    decreases samples.len() - j,
{
    if j < samples.len() {
        lemma_toc_leadout_prefix(samples.drop_last(), j);
        assert(samples.drop_last().subrange(0, j) =~= samples.subrange(0, j));
    } else {
        assert(samples.subrange(0, j) =~= samples);
    }
}

/// The upper-case hexadecimal digit of `d` (`d < 16`).
pub open spec fn hex_digit(d: int) -> char {
    seq!['0', '1', '2', '3', '4', '5', '6', '7', '8', '9', 'A', 'B', 'C', 'D', 'E', 'F'][d]
}

/// The upper-case hexadecimal digits of `n`, without leading zeros.
pub open spec fn hex_digits(n: nat) -> Seq<char>
    decreases n,
{
    if n < 16 {
        seq![hex_digit(n as int)]
    } else {
        hex_digits(n / 16).push(hex_digit((n % 16) as int))
    }
}

/// `n` in upper-case hexadecimal, zero-padded to at least 8 digits (`{:08X}`).
pub open spec fn hex8(n: nat) -> Seq<char> {
    let d = hex_digits(n);
    if d.len() < 8 {
        Seq::new((8 - d.len()) as nat, |i: int| '0') + d
    } else {
        d
    }
}

fn hex_digit_exec(d: u64) -> (c: char)
    requires
        d < 16,
    ensures
        c == hex_digit(d as int),
{
    let table: [char; 16] = ['0', '1', '2', '3', '4', '5', '6', '7', '8', '9', 'A', 'B', 'C', 'D', 'E', 'F'];
    assert(table@ =~= seq!['0', '1', '2', '3', '4', '5', '6', '7', '8', '9', 'A', 'B', 'C', 'D', 'E', 'F']);
    table[d as usize]
}

fn hex_digits_exec(n: u64) -> (r: Vec<char>)
    ensures
        r@ == hex_digits(n as nat),
    decreases n,
{
    if n < 16 {
        let mut v: Vec<char> = Vec::new();
        v.push(hex_digit_exec(n));
        v
    } else {
        let mut v = hex_digits_exec(n / 16);
        v.push(hex_digit_exec(n % 16));
        v
    }
}

/// Appends `{:08X}` of `n` to `out`.
fn push_hex8(out: &mut Vec<char>, n: u64)
    ensures
        final(out)@ == old(out)@ + hex8(n as nat),
{
    let d = hex_digits_exec(n);
    let ghost o = out@;
    if d.len() < 8 {
        let pad = 8 - d.len();
        let mut k: usize = 0;
        while k < pad
            invariant
                k <= pad,
                out@ == o + Seq::new(k as nat, |i: int| '0'),
            decreases pad - k,
        {
            out.push('0');
            assert(Seq::new((k + 1) as nat, |i: int| '0') =~= Seq::new(k as nat, |i: int| '0').push('0'));
            k = k + 1;
        }
    }
    crate::text::append_vec(out, &d);
    assert(out@ =~= o + hex8(n as nat));
}

/// `{:08X}` of each offset after the first, relative to `pregap`.
pub open spec fn toc_body(offsets: Seq<int>, pregap: int) -> Seq<char>
    decreases offsets.len(),
{
    if offsets.len() <= 1 {
        Seq::<char>::empty()
    } else {
        toc_body(offsets.drop_last(), pregap) + hex8((offsets.last() - pregap) as nat)
    }
}

/// `16` to the power `k`.
pub open spec fn pow16(k: nat) -> nat
    decreases k,
{
    if k == 0 {
        1
    } else {
        16 * pow16((k - 1) as nat)
    }
}

proof fn lemma_hex_digits_len(n: nat, k: nat)
    requires
        k >= 1,
        n < pow16(k),
    ensures
        1 <= hex_digits(n).len() <= k,
    decreases n,
{
    if n >= 16 {
        if k == 1 {
            assert(pow16(0) == 1);
            assert(pow16(1) == 16);
        }
        assert(n / 16 < pow16((k - 1) as nat));
        lemma_hex_digits_len(n / 16, (k - 1) as nat);
    }
}

/// A number below `2^32` is written by `hex8` in exactly 8 characters.
proof fn lemma_hex8_len(n: nat)
    requires
        n < 0x1_0000_0000,
    ensures
        hex8(n).len() == 8,
{
    assert(pow16(0) == 1);
    assert(pow16(1) == 16);
    assert(pow16(2) == 256);
    assert(pow16(3) == 4096);
    assert(pow16(4) == 65536);
    assert(pow16(5) == 1048576);
    assert(pow16(6) == 16777216);
    assert(pow16(7) == 268435456);
    assert(pow16(8) == 0x1_0000_0000);
    lemma_hex_digits_len(n, 8);
}

proof fn lemma_toc_body_layout(offs: Seq<int>, p: int)
    requires
        offs.len() >= 1,
        forall|k: int| 0 <= k < offs.len() ==> 0 <= #[trigger] offs[k] - p < 0x1_0000_0000,
    ensures
        toc_body(offs, p).len() == 8 * (offs.len() - 1),
        forall|k: int|
            1 <= k < offs.len() ==> toc_body(offs, p).subrange(8 * (k - 1), 8 * k) == hex8(
                (#[trigger] offs[k] - p) as nat,
            ),
    decreases offs.len(),
{
    if offs.len() > 1 {
        let prev = offs.drop_last();
        let n = offs.len() - 1;
        assert forall|k: int| 0 <= k < prev.len() implies 0 <= #[trigger] prev[k] - p < 0x1_0000_0000 by {
            assert(prev[k] == offs[k]);
        }
        lemma_toc_body_layout(prev, p);
        let a = toc_body(prev, p);
        let b = hex8((offs[n] - p) as nat);
        lemma_hex8_len((offs[n] - p) as nat);
        assert(toc_body(offs, p) == a + b);
        assert forall|k: int| 1 <= k < offs.len() implies toc_body(offs, p).subrange(8 * (k - 1), 8 * k) == hex8(
            (#[trigger] offs[k] - p) as nat,
        ) by {
            if k < n {
                assert(prev[k] == offs[k]);
                assert((a + b).subrange(8 * (k - 1), 8 * k) =~= a.subrange(8 * (k - 1), 8 * k));
            } else {
                assert((a + b).subrange(8 * (k - 1), 8 * k) =~= b);
            }
        }
    }
}

/// The TOC string of read tracks: for each read track after the first, 8
/// upper-case hex digits of its offset less the first one's; then 8 of the
/// lead-out less the first offset; then `0` up to 800 characters. The
/// lead-out must stay within `2^32` sectors of the first offset.
pub proof fn lemma_toc_string_layout(samples: Seq<Option<u64>>)
    requires
        toc_offsets(samples).len() > 0,
        toc_leadout(samples) < 150 + 0x1_0000_0000,
    ensures
        ({
            let offs = toc_offsets(samples);
            let n = offs.len() as int;
            let s = toc_string(offs, toc_leadout(samples));
            &&& s.len() == (if 8 * n < 800 { 800 } else { 8 * n })
            &&& forall|k: int|
                1 <= k < n ==> s.subrange(8 * (k - 1), 8 * k) == hex8((#[trigger] offs[k] - offs[0]) as nat)
            &&& s.subrange(8 * (n - 1), 8 * n) == hex8((toc_leadout(samples) - offs[0]) as nat)
            &&& forall|i: int| 8 * n <= i < s.len() ==> #[trigger] s[i] == '0'
        }),
{
    let offs = toc_offsets(samples);
    let lo = toc_leadout(samples);
    let n = offs.len() as int;
    lemma_toc_offsets(samples);
    let p = offs[0];
    assert forall|k: int| 0 <= k < offs.len() implies 0 <= #[trigger] offs[k] - p < 0x1_0000_0000 by {
        assert(offs[0] <= offs[k]);
    }
    lemma_toc_body_layout(offs, p);
    lemma_hex8_len((lo - p) as nat);
    let body = toc_body(offs, p) + hex8((lo - p) as nat);
    assert(body.len() == 8 * n);
    let s = toc_string(offs, lo);
    let a = toc_body(offs, p);
    let tail = if body.len() < 800 {
        Seq::new((800 - body.len()) as nat, |i: int| '0')
    } else {
        Seq::<char>::empty()
    };
    assert(s =~= body + tail);
    assert forall|k: int| 1 <= k < n implies s.subrange(8 * (k - 1), 8 * k) == hex8(
        (#[trigger] offs[k] - offs[0]) as nat,
    ) by {
        assert(s.subrange(8 * (k - 1), 8 * k) =~= a.subrange(8 * (k - 1), 8 * k));
    }
    assert(s.subrange(8 * (n - 1), 8 * n) =~= hex8((lo - p) as nat));
    assert forall|i: int| 8 * n <= i < s.len() implies #[trigger] s[i] == '0' by {
        assert(s[i] == tail[i - 8 * n]);
    }
}

/// An upper-case hexadecimal digit: `0`-`9` or `A`-`F`.
pub open spec fn upper_hex_char(c: char) -> bool {
    ('0' <= c <= '9') || ('A' <= c <= 'F')
}

/// The value of a hexadecimal digit character.
pub open spec fn hex_char_value(c: char) -> int {
    if '0' <= c <= '9' {
        c as int - '0' as int
    } else {
        c as int - 'A' as int + 10
    }
}

/// The number that a text of hexadecimal digits writes, most significant
/// digit first.
pub open spec fn hex_value(s: Seq<char>) -> int
    decreases s.len(),
{
    if s.len() == 0 {
        0
    } else {
        16 * hex_value(s.drop_last()) + hex_char_value(s.last())
    }
}

proof fn lemma_hex_digit_value(d: int)
    requires
        0 <= d < 16,
    ensures
        upper_hex_char(hex_digit(d)),
        hex_char_value(hex_digit(d)) == d,
{
    let t = seq!['0', '1', '2', '3', '4', '5', '6', '7', '8', '9', 'A', 'B', 'C', 'D', 'E', 'F'];
    assert(hex_digit(d) == t[d]);
    if d == 0 { assert(t[0] == '0'); }
    else if d == 1 { assert(t[1] == '1'); }
    else if d == 2 { assert(t[2] == '2'); }
    else if d == 3 { assert(t[3] == '3'); }
    else if d == 4 { assert(t[4] == '4'); }
    else if d == 5 { assert(t[5] == '5'); }
    else if d == 6 { assert(t[6] == '6'); }
    else if d == 7 { assert(t[7] == '7'); }
    else if d == 8 { assert(t[8] == '8'); }
    else if d == 9 { assert(t[9] == '9'); }
    else if d == 10 { assert(t[10] == 'A'); }
    else if d == 11 { assert(t[11] == 'B'); }
    else if d == 12 { assert(t[12] == 'C'); }
    else if d == 13 { assert(t[13] == 'D'); }
    else if d == 14 { assert(t[14] == 'E'); }
    else { assert(t[15] == 'F'); }
}

proof fn lemma_hex_digits_value(n: nat)
    ensures
        hex_value(hex_digits(n)) == n,
        forall|i: int| 0 <= i < hex_digits(n).len() ==> upper_hex_char(#[trigger] hex_digits(n)[i]),
    decreases n,
{
    if n < 16 {
        lemma_hex_digit_value(n as int);
        let d = hex_digits(n);
        assert(d.drop_last() =~= Seq::<char>::empty());
        assert(hex_value(d.drop_last()) == 0);
        assert(d.last() == hex_digit(n as int));
    } else {
        lemma_hex_digits_value(n / 16);
        lemma_hex_digit_value((n % 16) as int);
        let d = hex_digits(n);
        assert(d.drop_last() =~= hex_digits(n / 16));
        assert(d.last() == hex_digit((n % 16) as int));
        assert(hex_value(d) == 16 * (n / 16) + n % 16);
        assert forall|i: int| 0 <= i < d.len() implies upper_hex_char(#[trigger] d[i]) by {
            if i < d.len() - 1 {
                assert(d[i] == hex_digits(n / 16)[i]);
            }
        }
    }
}

proof fn lemma_zeros_value(z: Seq<char>, d: Seq<char>)
    requires
        forall|i: int| 0 <= i < z.len() ==> #[trigger] z[i] == '0',
    ensures
        hex_value(z + d) == hex_value(d),
    decreases z.len() + d.len(),
{
    if d.len() > 0 {
        assert((z + d).drop_last() =~= z + d.drop_last());
        lemma_zeros_value(z, d.drop_last());
    } else {
        assert(z + d =~= z);
        if z.len() > 0 {
            assert(z.drop_last() + d =~= z.drop_last());
            lemma_zeros_value(z.drop_last(), d);
            assert(z.last() == z[z.len() - 1]);
        }
    }
}

/// `hex8` writes a number below `2^32` in exactly 8 upper-case hexadecimal
/// digits, which read back as the number.
pub proof fn lemma_hex8_value(n: nat)
    requires
        n < 0x1_0000_0000,
    ensures
        hex8(n).len() == 8,
        forall|i: int| 0 <= i < 8 ==> upper_hex_char(#[trigger] hex8(n)[i]),
        hex_value(hex8(n)) == n,
{
    lemma_hex8_len(n);
    lemma_hex_digits_value(n);
    let d = hex_digits(n);
    if d.len() < 8 {
        let z = Seq::new((8 - d.len()) as nat, |i: int| '0');
        lemma_zeros_value(z, d);
        assert forall|i: int| 0 <= i < 8 implies upper_hex_char(#[trigger] hex8(n)[i]) by {
            if i >= z.len() {
                assert(hex8(n)[i] == d[i - z.len()]);
            }
        }
    }
}

/// The TOC string: the entries, right-padded with `0` to 800 characters.
pub open spec fn toc_string(offsets: Seq<int>, leadout: int) -> Seq<char> {
    let body = toc_body(offsets, offsets[0]) + hex8((leadout - offsets[0]) as nat);
    if body.len() < 800 {
        body + Seq::new((800 - body.len()) as nat, |i: int| '0')
    } else {
        body
    }
}

/// The bytes of an ASCII string.
pub open spec fn ascii_bytes(s: Seq<char>) -> Seq<u8> {
    s.map_values(|c: char| c as u8)
}

/// What `Sha1::digest` returns for the given bytes.
pub uninterp spec fn sha1_of(data: Seq<u8>) -> Seq<u8>;

/// What the standard, padded base64 engine encodes the given bytes to.
pub uninterp spec fn base64_of(data: Seq<u8>) -> Seq<char>;

/// `sha1::Sha1::digest`: the 20-byte SHA-1 digest of the data.
#[verifier::external_body]
fn sha1_digest(data: &[u8]) -> (r: Vec<u8>)
    ensures
        r@ == sha1_of(data@),
        r@.len() == 20,
{
    <sha1::Sha1 as sha1::Digest>::digest(data).to_vec()
}

/// A character of the standard base64 alphabet: `A`-`Z`, `a`-`z`, `0`-`9`,
/// `+` and `/`.
pub open spec fn base64_alphabet(c: char) -> bool {
    ('A' <= c <= 'Z') || ('a' <= c <= 'z') || ('0' <= c <= '9') || c == '+' || c == '/'
}

/// How many `=` close the padded base64 form of `n` bytes.
pub open spec fn base64_padding(n: nat) -> nat {
    if n % 3 == 1 {
        2
    } else if n % 3 == 2 {
        1
    } else {
        0
    }
}

/// `base64::engine::general_purpose::STANDARD.encode`: the standard alphabet
/// with padding, so four characters for every three bytes begun, the last
/// group closed with as many `=` as bytes it lacks.
#[verifier::external_body]
fn base64_standard(data: &[u8]) -> (r: String)
    ensures
        r@ == base64_of(data@),
        r@.len() == 4 * ((data@.len() + 2) / 3),
        forall|i: int|
            0 <= i < r@.len() - base64_padding(data@.len()) ==> base64_alphabet(#[trigger] r@[i]),
        forall|i: int|
            r@.len() - base64_padding(data@.len()) <= i < r@.len() ==> #[trigger] r@[i] == '=',
{
    base64::Engine::encode(&base64::engine::general_purpose::STANDARD, data)
}

/// The TOC id of a rip: the base64 form of the SHA-1 of the TOC string, with
/// `+`, `/` and `=` made `.`, `_` and `-`.
pub open spec fn tocid_of(offsets: Seq<int>, leadout: int) -> Seq<char> {
    map_char(map_char(map_char(base64_of(sha1_of(ascii_bytes(toc_string(offsets, leadout)))), '+', '.'), '/', '_'), '=', '-')
}

/// A TOC id holds none of `+`, `/` and `=`, so it can stand in a URL or a
/// file name.
pub proof fn lemma_tocid_charset(offsets: Seq<int>, leadout: int)
    ensures
        !tocid_of(offsets, leadout).contains('+'),
        !tocid_of(offsets, leadout).contains('/'),
        !tocid_of(offsets, leadout).contains('='),
{
    let r = tocid_of(offsets, leadout);
    if r.contains('+') {
        let k = choose|k: int| 0 <= k < r.len() && r[k] == '+';
    }
    if r.contains('/') {
        let k = choose|k: int| 0 <= k < r.len() && r[k] == '/';
    }
    if r.contains('=') {
        let k = choose|k: int| 0 <= k < r.len() && r[k] == '=';
    }
}

/// The shape of every TOC id: 28 characters, the last `-`, the others ASCII
/// letters and digits, `.` and `_`.
pub open spec fn tocid_shaped(s: Seq<char>) -> bool {
    &&& s.len() == 28
    &&& s[27] == '-'
    &&& forall|i: int|
        0 <= i < 27 ==> {
            let c = #[trigger] s[i];
            ('A' <= c <= 'Z') || ('a' <= c <= 'z') || ('0' <= c <= '9') || c == '.' || c == '_'
        }
}

/// The TOC id for tracks with the given sample counts (`None` for a file
/// whose stream info could not be read); none when no track was read.
pub open spec fn ctdb_tocid_of(samples: Seq<Option<u64>>) -> Option<Seq<char>> {
    if toc_offsets(samples).len() == 0 {
        None
    } else {
        Some(tocid_of(toc_offsets(samples), toc_leadout(samples)))
    }
}

/// The TOC id for tracks, in order, with their sample counts (`None` for a
/// file whose stream info could not be read). The lead-out must fit a `u64`.
pub fn ctdb_tocid(samples: &Vec<Option<u64>>) -> (r: Option<String>)
    requires
        toc_leadout(samples@) <= u64::MAX,
    ensures
        match r {
            Some(s) => ctdb_tocid_of(samples@) == Some(s@) && tocid_shaped(s@),
            None => ctdb_tocid_of(samples@) is None,
        },
{
    let mut offsets: Vec<u64> = Vec::new();
    let mut current: u64 = 150;
    let mut i: usize = 0;
    while i < samples.len()
        invariant
            i <= samples.len(),
            toc_leadout(samples@) <= u64::MAX,
            current == toc_leadout(samples@.subrange(0, i as int)),
            offsets@.map_values(|o: u64| o as int) == toc_offsets(samples@.subrange(0, i as int)),
        decreases samples.len() - i,
    {
        let ghost t = samples@.subrange(0, i + 1);
        assert(t.drop_last() =~= samples@.subrange(0, i as int));
        proof { lemma_toc_leadout_prefix(samples@, i + 1); }
        match samples[i] {
            Some(total) => {
                offsets.push(current);
                assert(offsets@.map_values(|o: u64| o as int) =~= toc_offsets(t));
                current = current + total / 588;
            },
            None => {},
        }
        i = i + 1;
    }
    assert(samples@.subrange(0, samples@.len() as int) =~= samples@);
    if offsets.len() == 0 {
        return None;
    }
    let ghost offs = toc_offsets(samples@);
    proof { lemma_toc_offsets(samples@); }
    assert(offsets@.map_values(|o: u64| o as int) == offs);
    let pregap = offsets[0];
    assert(pregap as int == offs[0]);
    let mut x: Vec<char> = Vec::new();
    let mut k: usize = 1;
    while k < offsets.len()
        invariant
            1 <= k <= offsets.len(),
            offsets@.map_values(|o: u64| o as int) == offs,
            pregap as int == offs[0],
            forall|a: int, b: int| 0 <= a <= b < offs.len() ==> #[trigger] offs[a] <= #[trigger] offs[b],
            x@ == toc_body(offs.subrange(0, k as int), offs[0]),
        decreases offsets.len() - k,
    {
        assert(offs[0] <= offs[k as int]);
        assert(offsets@[k as int] as int == offs[k as int]);
        push_hex8(&mut x, offsets[k] - pregap);
        let ghost sub = offs.subrange(0, k + 1);
        assert(sub.drop_last() =~= offs.subrange(0, k as int));
        assert(x@ == toc_body(sub, offs[0]));
        k = k + 1;
    }
    assert(offs.subrange(0, offs.len() as int) =~= offs);
    assert(offs[0] <= offs[offs.len() - 1]);
    assert(current as int == toc_leadout(samples@));
    push_hex8(&mut x, current - pregap);
    let ghost body = x@;
    if x.len() < 800 {
        let pad = 800 - x.len();
        let mut p: usize = 0;
        while p < pad
            invariant
                p <= pad,
                x@ == body + Seq::new(p as nat, |i: int| '0'),
            decreases pad - p,
        {
            x.push('0');
            assert(Seq::new((p + 1) as nat, |i: int| '0') =~= Seq::new(p as nat, |i: int| '0').push('0'));
            p = p + 1;
        }
    }
    assert(x@ == toc_string(offs, toc_leadout(samples@)));
    let mut bytes: Vec<u8> = Vec::new();
    let mut b: usize = 0;
    while b < x.len()
        invariant
            b <= x.len(),
            bytes@ == ascii_bytes(x@.subrange(0, b as int)),
        decreases x.len() - b,
    {
        bytes.push(x[b] as u8);
        assert(ascii_bytes(x@.subrange(0, b + 1)) =~= ascii_bytes(x@.subrange(0, b as int)).push(x@[b as int] as u8));
        b = b + 1;
    }
    assert(x@.subrange(0, x@.len() as int) =~= x@);
    let digest = sha1_digest(bytes.as_slice());
    let encoded = base64_standard(digest.as_slice());
    let e = chars_of(encoded.as_str());
    let r1 = replace_char(&e, '+', '.');
    let r2 = replace_char(&r1, '/', '_');
    let r3 = replace_char(&r2, '=', '-');
    proof {
        assert(base64_padding(20) == 1);
        assert(encoded@.len() == 28);
        assert forall|i: int| 0 <= i < 27 implies {
            let c = #[trigger] r3@[i];
            ('A' <= c <= 'Z') || ('a' <= c <= 'z') || ('0' <= c <= '9') || c == '.' || c == '_'
        } by {
            assert(base64_alphabet(encoded@[i]));
        }
        assert(encoded@[27] == '=');
    }
    Some(string_of(r3.as_slice()))
}

// ---------------------------------------------------------------------------
// The TOC id of a source

/// The sample counts of the tracks, in order.
pub open spec fn samples_of(cands: Seq<TrackCandidate>) -> Seq<Option<u64>> {
    cands.map_values(|c: TrackCandidate| c.samples)
}

/// The sample counts of sorted tracks, in order.
pub open spec fn entry_samples(es: Seq<SortEntry>) -> Seq<Option<u64>> {
    es.map_values(|e: SortEntry| e.samples)
}

/// What a sort entry stands for: its key, path and sample count.
pub open spec fn entry_view(e: SortEntry) -> (u8, u32, Seq<char>, Seq<char>, Option<u64>) {
    (e.key.0, e.key.1, e.key.2@, e.path@, e.samples)
}

/// A track, as its key, path and sample count, goes after another: a greater
/// numeric key, or an equal one and a path that compares greater.
pub open spec fn view_goes_after(a: (u8, u32, Seq<char>, Seq<char>, Option<u64>), b: (u8, u32, Seq<char>, Seq<char>, Option<u64>)) -> bool {
    a.0 > b.0 || (a.0 == b.0 && (a.1 > b.1 || (a.1 == b.1 && path_order(a.3, b.3) == 1)))
}

/// The tracks `r` are the tracks `v` sorted stably: `perm` records where each
/// stood, and tracks of which neither goes after the other keep their order.
pub open spec fn track_views_stable(
    perm: Seq<int>,
    r: Seq<(u8, u32, Seq<char>, Seq<char>, Option<u64>)>,
    v: Seq<(u8, u32, Seq<char>, Seq<char>, Option<u64>)>,
) -> bool {
    stable_perm(perm, r, v, |a: (u8, u32, Seq<char>, Seq<char>, Option<u64>), b: (u8, u32, Seq<char>, Seq<char>, Option<u64>)| view_goes_after(a, b))
}

/// The tracks `r` are the tracks `v` sorted stably.
pub open spec fn tracks_stable_of(
    r: Seq<(u8, u32, Seq<char>, Seq<char>, Option<u64>)>,
    v: Seq<(u8, u32, Seq<char>, Seq<char>, Option<u64>)>,
) -> bool {
    exists|perm: Seq<int>| #[trigger] track_views_stable(perm, r, v)
}

/// A stable sort of entries is a stable sort of what they stand for.
proof fn lemma_entries_stable_views(perm: Seq<int>, r: Seq<SortEntry>, v: Seq<SortEntry>)
    requires
        entries_stable(perm, r, v),
    ensures
        tracks_stable_of(r.map_values(|e: SortEntry| entry_view(e)), v.map_values(|e: SortEntry| entry_view(e))),
{
    let rv = r.map_values(|e: SortEntry| entry_view(e));
    let vv = v.map_values(|e: SortEntry| entry_view(e));
    assert forall|k: int| 0 <= k < rv.len() implies 0 <= #[trigger] perm[k] < vv.len() && rv[k] == vv[perm[k]] by {
        assert(r[k] == v[perm[k]]);
    }
    assert forall|a: int, b: int|
        0 <= a < b < rv.len() && !view_goes_after(rv[a], rv[b]) && !view_goes_after(rv[b], rv[a]) implies
        #[trigger] perm[a] < #[trigger] perm[b] by {
        assert(view_goes_after(rv[a], rv[b]) == goes_after(r[a], r[b]));
        assert(view_goes_after(rv[b], rv[a]) == goes_after(r[b], r[a]));
    }
    assert(track_views_stable(perm, rv, vv));
}

/// The sort entry a track stands for: its sort key, path and sample count.
pub open spec fn candidate_view(c: TrackCandidate) -> (u8, u32, Seq<char>, Seq<char>, Option<u64>) {
    let k = sort_key_of(
        match c.track_number {
            Some(t) => Some(t@),
            None => None,
        },
        c.path@,
    );
    (k.0, k.1, k.2, c.path@, c.samples)
}

/// Equal multisets stay equal when every element is mapped the same way.
pub proof fn lemma_map_multiset<A, B>(a: Seq<A>, b: Seq<A>, f: spec_fn(A) -> B)
    requires
        a.to_multiset() == b.to_multiset(),
    ensures
        a.map_values(f).to_multiset() == b.map_values(f).to_multiset(),
    decreases a.len(),
{
    broadcast use vstd::seq_lib::group_to_multiset_ensures;
    if a.len() > 0 {
        let x = a.last();
        assert(a.to_multiset().count(x) > 0);
        assert(b.contains(x));
        let k = choose|k: int| 0 <= k < b.len() && b[k] == x;
        let b2 = b.remove(k);
        vstd::seq_lib::to_multiset_remove(b, k);
        assert(a.drop_last().to_multiset() == a.to_multiset().remove(x)) by {
            vstd::seq_lib::to_multiset_build(a.drop_last(), x);
            assert(a.drop_last().push(x) =~= a);
        }
        lemma_map_multiset(a.drop_last(), b2, f);
        assert(a.map_values(f) =~= a.drop_last().map_values(f).push(f(x)));
        vstd::seq_lib::to_multiset_build(a.drop_last().map_values(f), f(x));
        assert(b2.map_values(f) =~= b.map_values(f).remove(k));
        vstd::seq_lib::to_multiset_remove(b.map_values(f), k);
        assert(b.map_values(f).to_multiset().count(f(x)) > 0) by {
            assert(b.map_values(f)[k] == f(x));
        }
    } else {
        assert(b.to_multiset().len() == 0);
        assert(b.len() == 0);
        assert(a.map_values(f) =~= Seq::<B>::empty());
        assert(b.map_values(f) =~= Seq::<B>::empty());
    }
}

/// The sectors that one sample count adds to the lead-out.
pub open spec fn sectors(s: Option<u64>) -> int {
    match s {
        Some(t) => (t / 588) as int,
        None => 0,
    }
}

/// The lead-out is 150 plus the sectors of every track.
proof fn lemma_leadout_remove(samples: Seq<Option<u64>>, k: int)
    requires
        0 <= k < samples.len(),
    ensures
        toc_leadout(samples) == toc_leadout(samples.remove(k)) + sectors(samples[k]),
    decreases samples.len(),
{
    if k < samples.len() - 1 {
        lemma_leadout_remove(samples.drop_last(), k);
        assert(samples.remove(k).drop_last() =~= samples.drop_last().remove(k));
        assert(samples.remove(k).last() == samples.last());
    } else {
        assert(samples.remove(k) =~= samples.drop_last());
    }
}

/// The lead-out does not depend on the order of the tracks.
pub proof fn lemma_leadout_multiset(a: Seq<Option<u64>>, b: Seq<Option<u64>>)
    requires
        a.to_multiset() == b.to_multiset(),
    ensures
        toc_leadout(a) == toc_leadout(b),
    decreases a.len(),
{
    broadcast use vstd::seq_lib::group_to_multiset_ensures;
    if a.len() > 0 {
        let x = a.last();
        assert(a.to_multiset().count(x) > 0);
        assert(b.contains(x));
        let k = choose|k: int| 0 <= k < b.len() && b[k] == x;
        let b2 = b.remove(k);
        vstd::seq_lib::to_multiset_remove(b, k);
        assert(a.drop_last().to_multiset() == a.to_multiset().remove(x)) by {
            vstd::seq_lib::to_multiset_build(a.drop_last(), x);
            assert(a.drop_last().push(x) =~= a);
        }
        lemma_leadout_multiset(a.drop_last(), b2);
        lemma_leadout_remove(b, k);
    } else {
        assert(b.to_multiset().len() == 0);
        assert(b.len() == 0);
    }
}

/// The tracks that a filter keeps have a lead-out at most that of all files.
pub proof fn lemma_leadout_selected(cands: Seq<TrackCandidate>, pats: Option<Seq<Seq<char>>>)
    ensures
        toc_leadout(samples_of(selected_tracks(cands, pats))) <= toc_leadout(samples_of(cands)),
    decreases cands.len(),
{
    if cands.len() > 0 {
        lemma_leadout_selected(cands.drop_last(), pats);
        assert(samples_of(cands).drop_last() =~= samples_of(cands.drop_last()));
        let prev = selected_tracks(cands.drop_last(), pats);
        if candidate_selected(cands.last(), pats) {
            assert(samples_of(prev.push(cands.last())).drop_last() =~= samples_of(prev));
        }
    }
}

/// The TOC id of the tracks under a source directory: the files that count as
/// tracks under the optional filter, ordered by their sort keys (between
/// equal keys, by `alphanumeric_sort::compare_path` of their paths, tracks of
/// which neither goes after the other keeping their order), with the sample
/// counts in that order; none when no file counts as a track or no
/// stream info was read. The lead-out of all the files must fit a `u64`.
pub fn resolve_ctdbtocid(cands: &Vec<TrackCandidate>, filter: Option<&str>) -> (r: Option<String>)
    requires
        toc_leadout(samples_of(cands@)) <= u64::MAX,
    ensures
        ({
            let sel = selected_tracks(cands@, active_patterns(match filter { Some(f) => Some(f@), None => None }));
            &&& sel.len() == 0 ==> r is None
            &&& exists|es: Seq<SortEntry>|
                #![trigger keys_sorted(es)]
                keys_sorted(es)
                && (entry_paths_total_on(es) ==> ties_path_sorted(es))
                && es.map_values(|e: SortEntry| entry_view(e)).to_multiset()
                    == sel.map_values(|c: TrackCandidate| candidate_view(c)).to_multiset()
                && tracks_stable_of(es.map_values(|e: SortEntry| entry_view(e)), sel.map_values(|c: TrackCandidate| candidate_view(c)))
                && match r {
                    Some(id) => ctdb_tocid_of(entry_samples(es)) == Some(id@) && tocid_shaped(id@),
                    None => sel.len() == 0 || ctdb_tocid_of(entry_samples(es)) is None,
                }
        }),
{
    let ghost fv = match filter {
        Some(f) => Some(f@),
        None => None,
    };
    let selected = select_track_files(cands, filter);
    let ghost sel = selected@;
    let mut entries: Vec<SortEntry> = Vec::new();
    let mut i: usize = 0;
    while i < selected.len()
        invariant
            i <= selected.len(),
            entries@.len() == i,
            forall|k: int| 0 <= k < i ==> entry_view(#[trigger] entries@[k]) == candidate_view(selected@[k]),
            forall|k: int| 0 <= k < i ==> (#[trigger] entries@[k]).samples == selected@[k].samples,
        decreases selected.len() - i,
    {
        let c = &selected[i];
        let key = get_sort_key(
            match &c.track_number {
                Some(t) => Some(t.as_str()),
                None => None,
            },
            c.path.as_str(),
        );
        entries.push(SortEntry { key, path: c.path.clone(), samples: c.samples });
        i = i + 1;
    }
    let ghost ent = entries@;
    assert(ent.map_values(|e: SortEntry| entry_view(e)) =~= sel.map_values(|c: TrackCandidate| candidate_view(c)));
    assert(entry_samples(ent) =~= samples_of(sel));
    let sorted = sort_tracks(entries);
    proof {
        lemma_map_multiset(sorted@, ent, |e: SortEntry| entry_view(e));
        lemma_map_multiset(sorted@, ent, |e: SortEntry| e.samples);
        lemma_leadout_multiset(entry_samples(sorted@), entry_samples(ent));
        lemma_leadout_selected(cands@, active_patterns(fv));
        lemma_entry_paths_total_multiset(sorted@, ent);
        let perm = choose|perm: Seq<int>| #[trigger] entries_stable(perm, sorted@, ent);
        lemma_entries_stable_views(perm, sorted@, ent);
    }
    let mut samples: Vec<Option<u64>> = Vec::new();
    let mut j: usize = 0;
    while j < sorted.len()
        invariant
            j <= sorted.len(),
            samples@ == entry_samples(sorted@).subrange(0, j as int),
        decreases sorted.len() - j,
    {
        samples.push(sorted[j].samples);
        assert(samples@ =~= entry_samples(sorted@).subrange(0, j + 1));
        j = j + 1;
    }
    assert(samples@ =~= entry_samples(sorted@));
    if selected.len() == 0 {
        assert(keys_sorted(sorted@));
        return None;
    }
    let r = ctdb_tocid(&samples);
    assert(keys_sorted(sorted@));
    r
}

} // verus!
