//! A JSON value model for manifest data, and the edits applied to it with
//! `serde_json`'s indexing rules.
use vstd::prelude::*;
use crate::text::{chars_of, to_string, seq_equal, map_char, is_digit, digits_value, all_digits, lemma_digits_value_prefix};

verus! {

/// A JSON value. Numbers keep the decimal text `serde_json` writes them
/// with; objects keep their entries in the order they were added (a key
/// looked up is found at its first entry, and the edits below never add a
/// key twice).
pub enum Json {
    Null,
    Bool(bool),
    Number(String),
    Str(String),
    Array(Vec<Json>),
    Object(Vec<(String, Json)>),
}

/// The mathematical form of a JSON value.
pub enum JsonV {
    Null,
    Bool(bool),
    Number(Seq<char>),
    Str(Seq<char>),
    Array(Seq<JsonV>),
    Object(Seq<(Seq<char>, JsonV)>),
}

impl Json {
    /// The mathematical form of the value.
    pub open spec fn model(self) -> JsonV
        decreases self,
    {
        match self {
            Json::Null => JsonV::Null,
            Json::Bool(b) => JsonV::Bool(b),
            Json::Number(n) => JsonV::Number(n@),
            Json::Str(s) => JsonV::Str(s@),
            Json::Array(a) => JsonV::Array(
                Seq::new(a@.len(), |i: int| if 0 <= i < a@.len() { a@[i].model() } else { JsonV::Null }),
            ),
            Json::Object(o) => JsonV::Object(
                Seq::new(
                    o@.len(),
                    |i: int|
                        if 0 <= i < o@.len() {
                            (o@[i].0@, o@[i].1.model())
                        } else {
                            (Seq::<char>::empty(), JsonV::Null)
                        },
                ),
            ),
        }
    }

    /// A copy of the value.
    pub fn deep_clone(&self) -> (r: Json)
        ensures
            r.model() == self.model(),
        decreases self,
    {
        match self {
            Json::Null => Json::Null,
            Json::Bool(b) => Json::Bool(*b),
            Json::Number(n) => Json::Number(n.clone()),
            Json::Str(s) => Json::Str(s.clone()),
            Json::Array(a) => {
                let mut out: Vec<Json> = Vec::new();
                let mut i: usize = 0;
                while i < a.len()
                    invariant
                        i <= a.len(),
                        *self == Json::Array(*a),
                        out@.len() == i,
                        forall|k: int| 0 <= k < i ==> (#[trigger] out@[k]).model() == a@[k].model(),
                    decreases a.len() - i,
                {
                    proof {
                        assert(decreases_to!(*a => a@));
                        assert(decreases_to!(a@ => a@[i as int]));
                        assert(self->Array_0 == *a);
                        assert(decreases_to!(*self => self->Array_0));
                        assert(decreases_to!(*self => a@[i as int]));
                    }
                    let c = a[i].deep_clone();
                    out.push(c);
                    i = i + 1;
                }
                let r = Json::Array(out);
                assert(r.model() =~= self.model()) by {
                    if let JsonV::Array(x) = r.model() {
                        if let JsonV::Array(y) = self.model() {
                            assert(x =~= y);
                        }
                    }
                }
                r
            },
            Json::Object(o) => {
                let mut out: Vec<(String, Json)> = Vec::new();
                let mut i: usize = 0;
                while i < o.len()
                    invariant
                        i <= o.len(),
                        *self == Json::Object(*o),
                        out@.len() == i,
                        forall|k: int| 0 <= k < i ==> (#[trigger] out@[k]).0@ == o@[k].0@ && out@[k].1.model() == o@[k].1.model(),
                    decreases o.len() - i,
                {
                    proof {
                        assert(decreases_to!(*o => o@));
                        assert(decreases_to!(o@ => o@[i as int]));
                        assert(decreases_to!(o@[i as int] => o@[i as int].1));
                        assert(self->Object_0 == *o);
                        assert(decreases_to!(*self => self->Object_0));
                        assert(decreases_to!(*self => o@[i as int].1));
                    }
                    let c = o[i].1.deep_clone();
                    out.push((o[i].0.clone(), c));
                    i = i + 1;
                }
                let r = Json::Object(out);
                assert(r.model() =~= self.model()) by {
                    if let JsonV::Object(x) = r.model() {
                        if let JsonV::Object(y) = self.model() {
                            assert(x =~= y);
                        }
                    }
                }
                r
            },
        }
    }
}


/// The mathematical form of the entries of an object.
pub open spec fn entries_model(o: Seq<(String, Json)>) -> Seq<(Seq<char>, JsonV)> {
    Seq::new(o.len(), |i: int| (o[i].0@, o[i].1.model()))
}

/// The mathematical form of the elements of an array.
pub open spec fn elements_model(a: Seq<Json>) -> Seq<JsonV> {
    Seq::new(a.len(), |i: int| a[i].model())
}

/// An object's form is the form of its entries; an array's the form of its
/// elements.
pub proof fn lemma_model_parts(v: Json)
    ensures
        v matches Json::Object(o) ==> v.model() == JsonV::Object(entries_model(o@)),
        v matches Json::Array(a) ==> v.model() == JsonV::Array(elements_model(a@)),
{
    match v {
        Json::Object(o) => {
            if let JsonV::Object(x) = v.model() {
                assert(x =~= entries_model(o@));
            }
        },
        Json::Array(a) => {
            if let JsonV::Array(x) = v.model() {
                assert(x =~= elements_model(a@));
            }
        },
        _ => {},
    }
}

/// Position of the first entry with the key, or -1.
pub open spec fn entry_index(es: Seq<(Seq<char>, JsonV)>, key: Seq<char>) -> int
    decreases es.len(),
{
    if es.len() == 0 {
        -1
    } else {
        let k = entry_index(es.drop_last(), key);
        if k >= 0 {
            k
        } else if es.last().0 == key {
            es.len() - 1
        } else {
            -1
        }
    }
}

/// `entry_index` is -1 or the first position holding the key.
pub proof fn lemma_entry_index(es: Seq<(Seq<char>, JsonV)>, key: Seq<char>)
    ensures
        -1 <= entry_index(es, key) < es.len(),
        entry_index(es, key) >= 0 ==> es[entry_index(es, key)].0 == key,
        entry_index(es, key) >= 0 ==> forall|k: int| 0 <= k < entry_index(es, key) ==> (#[trigger] es[k]).0 != key,
        entry_index(es, key) < 0 ==> forall|k: int| 0 <= k < es.len() ==> (#[trigger] es[k]).0 != key,
    decreases es.len(),
{
    if es.len() > 0 {
        lemma_entry_index(es.drop_last(), key);
        assert forall|k: int| 0 <= k < es.len() - 1 implies (#[trigger] es[k]) == es.drop_last()[k] by {}
    }
}

/// The first position holding a key is its position.
pub proof fn lemma_entry_at(es: Seq<(Seq<char>, JsonV)>, key: Seq<char>, j: int)
    requires
        0 <= j < es.len(),
        es[j].0 == key,
        forall|k: int| 0 <= k < j ==> (#[trigger] es[k]).0 != key,
    ensures
        entry_index(es, key) == j,
{
    lemma_entry_index(es, key);
}

/// Entries with the same keys in the same places give every key the same
/// position.
pub proof fn lemma_entry_index_keys(a: Seq<(Seq<char>, JsonV)>, b: Seq<(Seq<char>, JsonV)>, key: Seq<char>)
    requires
        a.len() == b.len(),
        forall|k: int| 0 <= k < a.len() ==> (#[trigger] a[k]).0 == b[k].0,
    ensures
        entry_index(a, key) == entry_index(b, key),
    decreases a.len(),
{
    if a.len() > 0 {
        assert(a.last().0 == b.last().0) by {
            assert(a[a.len() - 1].0 == b[b.len() - 1].0);
        }
        assert forall|k: int| 0 <= k < a.drop_last().len() implies (#[trigger] a.drop_last()[k]).0 == b.drop_last()[k].0 by {
            assert(a.drop_last()[k] == a[k]);
            assert(b.drop_last()[k] == b[k]);
        }
        lemma_entry_index_keys(a.drop_last(), b.drop_last(), key);
    }
}

/// After `v[k] = val`, the value is an object whose `k` is `val` and whose
/// other keys are as before.
pub proof fn lemma_jget_jset(v: JsonV, k: Seq<char>, val: JsonV, k2: Seq<char>)
    requires
        indexable(v),
    ensures
        jset(v, k, val) is Object,
        jget(jset(v, k, val), k2) == (if k2 == k { Some(val) } else { jget(v, k2) }),
        jchild(jset(v, k, val), k2) == (if k2 == k { val } else { jchild(v, k2) }),
{
    match v {
        JsonV::Object(es) => {
            let i = entry_index(es, k);
            lemma_entry_index(es, k);
            lemma_entry_index(es, k2);
            if i >= 0 {
                let es2 = es.update(i, (k, val));
                assert forall|m: int| 0 <= m < es2.len() implies (#[trigger] es2[m]).0 == es[m].0 by {}
                lemma_entry_index_keys(es2, es, k2);
                lemma_entry_index_keys(es2, es, k);
                assert(es2[i] == (k, val));
                let j = entry_index(es, k2);
                assert(jset(v, k, val) == JsonV::Object(es2));
                assert(entry_index(es2, k2) == j);
                if k2 != k && j >= 0 {
                    assert(j != i);
                    assert(es2[j] == es[j]);
                    assert(jget(jset(v, k, val), k2) == jget(v, k2));
                } else if k2 == k {
                    assert(j == i);
                    assert(jget(jset(v, k, val), k2) == Some(val));
                } else {
                    assert(jget(jset(v, k, val), k2) == jget(v, k2));
                }
            } else {
                let es2 = es.push((k, val));
                assert(es2.drop_last() =~= es);
                assert(es2.last() == (k, val));
                assert(entry_index(es2, k2) == (if entry_index(es, k2) >= 0 {
                    entry_index(es, k2)
                } else if k2 == k {
                    es.len() as int
                } else {
                    -1
                }));
                if k2 == k {
                    assert(entry_index(es2, k2) == es.len());
                    assert(es2[es.len() as int] == (k, val));
                } else if entry_index(es, k2) >= 0 {
                    assert(es2[entry_index(es, k2)] == es[entry_index(es, k2)]);
                }
            }
        },
        _ => {
            let es2 = seq![(k, val)];
            assert(es2.drop_last() =~= Seq::<(Seq<char>, JsonV)>::empty());
            assert(entry_index(es2.drop_last(), k2) == -1);
            assert(jset(v, k, val) == JsonV::Object(es2));
            if k2 == k {
                assert(entry_index(es2, k2) == 0);
            } else {
                assert(entry_index(es2, k2) == -1);
            }
        },
    }
}

/// The value under a key (`Value::get`): none for a missing key or a value
/// that is no object.
pub open spec fn jget(v: JsonV, key: Seq<char>) -> Option<JsonV> {
    match v {
        JsonV::Object(es) => if entry_index(es, key) >= 0 {
            Some(es[entry_index(es, key)].1)
        } else {
            None
        },
        _ => None,
    }
}

/// The value that a key can be assigned in: null (which becomes an object) or
/// an object.
pub open spec fn indexable(v: JsonV) -> bool {
    v is Null || v is Object
}

/// The value after `v[key] = val`: a null becomes an object; an existing
/// entry gets the new value in place; a new key is appended.
pub open spec fn jset(v: JsonV, key: Seq<char>, val: JsonV) -> JsonV {
    match v {
        JsonV::Object(es) => {
            let i = entry_index(es, key);
            if i >= 0 {
                JsonV::Object(es.update(i, (key, val)))
            } else {
                JsonV::Object(es.push((key, val)))
            }
        },
        _ => JsonV::Object(seq![(key, val)]),
    }
}

/// What `v[key]` refers to once the key was inserted when missing.
pub open spec fn jchild(v: JsonV, key: Seq<char>) -> JsonV {
    match jget(v, key) {
        Some(c) => c,
        None => JsonV::Null,
    }
}

/// The value after `v[k0][k1]...[kn] = val`.
pub open spec fn jset_path(v: JsonV, keys: Seq<Seq<char>>, val: JsonV) -> JsonV
    decreases keys.len(),
{
    if keys.len() == 0 {
        val
    } else {
        jset(v, keys[0], jset_path(jchild(v, keys[0]), keys.subrange(1, keys.len() as int), val))
    }
}

/// Every value along the path can be indexed.
pub open spec fn settable(v: JsonV, keys: Seq<Seq<char>>) -> bool
    decreases keys.len(),
{
    keys.len() == 0 || (indexable(v) && settable(jchild(v, keys[0]), keys.subrange(1, keys.len() as int)))
}

/// The value reached by following the keys (`v.get(k0)?.get(k1)?...`).
pub open spec fn jget_path(v: JsonV, keys: Seq<Seq<char>>) -> Option<JsonV>
    decreases keys.len(),
{
    if keys.len() == 0 {
        Some(v)
    } else {
        match jget(v, keys[0]) {
            Some(c) => jget_path(c, keys.subrange(1, keys.len() as int)),
            None => None,
        }
    }
}

/// Reading back along the keys of a write gives the value written.
pub proof fn lemma_set_path_get(v: JsonV, keys: Seq<Seq<char>>, val: JsonV)
    requires
        settable(v, keys),
    ensures
        jget_path(jset_path(v, keys, val), keys) == Some(val),
    decreases keys.len(),
{
    if keys.len() > 0 {
        let rest = keys.subrange(1, keys.len() as int);
        let c = jchild(v, keys[0]);
        lemma_set_path_get(c, rest, val);
        lemma_jget_jset(v, keys[0], jset_path(c, rest, val), keys[0]);
    }
}

/// A write along one path leaves what another path of the same length reads.
pub proof fn lemma_set_path_other(v: JsonV, p: Seq<Seq<char>>, q: Seq<Seq<char>>, val: JsonV)
    requires
        settable(v, p),
        p.len() == q.len(),
        p != q,
    ensures
        jget_path(jset_path(v, p, val), q) == jget_path(v, q),
    decreases p.len(),
{
    if p.len() == 0 {
        assert(p =~= q);
    } else {
        let prest = p.subrange(1, p.len() as int);
        let qrest = q.subrange(1, q.len() as int);
        let c = jchild(v, p[0]);
        let x = jset_path(c, prest, val);
        lemma_jget_jset(v, p[0], x, q[0]);
        if p[0] == q[0] {
            assert(prest != qrest) by {
                if prest == qrest {
                    assert(p =~= q) by {
                        assert forall|i: int| 0 <= i < p.len() implies p[i] == q[i] by {
                            if i > 0 {
                                assert(p[i] == prest[i - 1]);
                                assert(q[i] == qrest[i - 1]);
                            }
                        }
                    }
                }
            }
            lemma_set_path_other(c, prest, qrest, val);
            assert(qrest.len() > 0) by {
                if qrest.len() == 0 {
                    assert(prest =~= qrest);
                }
            }
            assert(jget_path(jset_path(v, p, val), q) == jget_path(x, qrest));
            match jget(v, q[0]) {
                Some(cc) => {
                    assert(cc == c);
                },
                None => {
                    assert(c == JsonV::Null);
                    assert(jget_path(c, qrest) == None::<JsonV>);
                },
            }
        } else {
            assert(jset_path(v, p, val) == jset(v, p[0], x));
            assert(jget(jset(v, p[0], x), q[0]) == jget(v, q[0]));
        }
    }
}

/// No key occurs twice among an object's entries (a value that is no object
/// has none).
pub open spec fn unique_keys(v: JsonV) -> bool {
    match v {
        JsonV::Object(es) => forall|i: int, j: int| 0 <= i < j < es.len() ==> (#[trigger] es[i]).0 != (#[trigger] es[j]).0,
        _ => true,
    }
}

/// Writing a key never makes it occur twice.
pub proof fn lemma_jset_unique(v: JsonV, k: Seq<char>, val: JsonV)
    requires
        indexable(v),
        unique_keys(v),
    ensures
        unique_keys(jset(v, k, val)),
{
    match v {
        JsonV::Object(es) => {
            lemma_entry_index(es, k);
            let i = entry_index(es, k);
            if i >= 0 {
                let es2 = es.update(i, (k, val));
                assert forall|a: int, b: int| 0 <= a < b < es2.len() implies (#[trigger] es2[a]).0 != (#[trigger] es2[b]).0 by {
                    assert(es2[a].0 == es[a].0 && es2[b].0 == es[b].0);
                    assert(es[a].0 != es[b].0);
                }
            } else {
                let es2 = es.push((k, val));
                assert forall|a: int, b: int| 0 <= a < b < es2.len() implies (#[trigger] es2[a]).0 != (#[trigger] es2[b]).0 by {
                    if b < es.len() {
                        assert(es2[a] == es[a] && es2[b] == es[b]);
                        assert(es[a].0 != es[b].0);
                    } else {
                        assert(es2[a] == es[a]);
                        assert(es[a].0 != k);
                    }
                }
            }
        },
        _ => {},
    }
}

/// Position of the first entry with the key.
fn find_key(o: &Vec<(String, Json)>, key: &str) -> (r: Option<usize>)
    ensures
        match r {
            Some(i) => i as int == entry_index(entries_model(o@), key@),
            None => entry_index(entries_model(o@), key@) < 0,
        },
{
    let k = chars_of(key);
    let mut i: usize = 0;
    while i < o.len()
        invariant
            i <= o.len(),
            k@ == key@,
            entry_index(entries_model(o@).subrange(0, i as int), key@) < 0,
        decreases o.len() - i,
    {
        let ghost t = entries_model(o@).subrange(0, i + 1);
        assert(t.drop_last() =~= entries_model(o@).subrange(0, i as int));
        let kv = chars_of(o[i].0.as_str());
        if seq_equal(&kv, &k) {
            proof {
                lemma_entry_index(entries_model(o@), key@);
                lemma_entry_prefix(entries_model(o@), key@, i + 1);
            }
            return Some(i);
        }
        i = i + 1;
    }
    assert(entries_model(o@).subrange(0, o@.len() as int) =~= entries_model(o@));
    None
}

/// The first position of a key in a prefix that holds it is its first
/// position in the whole.
proof fn lemma_entry_prefix(es: Seq<(Seq<char>, JsonV)>, key: Seq<char>, j: int)
    requires
        0 <= j <= es.len(),
        entry_index(es.subrange(0, j), key) >= 0,
    ensures
        entry_index(es, key) == entry_index(es.subrange(0, j), key),
    decreases es.len() - j,
{
    if j < es.len() {
        assert(es.drop_last().subrange(0, j) =~= es.subrange(0, j));
        lemma_entry_prefix(es.drop_last(), key, j);
    } else {
        assert(es.subrange(0, j) =~= es);
    }
}

impl Json {
    /// The value under a key (`Value::get`).
    pub fn get(&self, key: &str) -> (r: Option<&Json>)
        ensures
            match r {
                Some(c) => jget(self.model(), key@) == Some(c.model()),
                None => jget(self.model(), key@) is None,
            },
    {
        proof {
            lemma_model_parts(*self);
            if let Json::Object(o) = self {
                lemma_entry_index(entries_model(o@), key@);
            }
        }
        match self {
            Json::Object(o) => match find_key(o, key) {
                Some(i) => Some(&o[i].1),
                None => None,
            },
            _ => None,
        }
    }

    /// A copy of the value under a key, or null.
    pub fn child_or_null(&self, key: &str) -> (r: Json)
        ensures
            r.model() == jchild(self.model(), key@),
    {
        match self.get(key) {
            Some(c) => c.deep_clone(),
            None => Json::Null,
        }
    }

    /// The value after `self[key] = val`.
    pub fn with_key(self, key: &str, val: Json) -> (r: Json)
        requires
            indexable(self.model()),
        ensures
            r.model() == jset(self.model(), key@, val.model()),
    {
        proof { lemma_model_parts(self); }
        let ghost old_model = self.model();
        match self {
            Json::Object(mut o) => {
                let ghost om = entries_model(o@);
                proof { lemma_entry_index(om, key@); }
                match find_key(&o, key) {
                    Some(i) => {
                        o.set(i, (to_string(key), val));
                        let r = Json::Object(o);
                        proof { lemma_model_parts(r); }
                        assert(entries_model(o@) =~= om.update(i as int, (key@, val.model())));
                        r
                    },
                    None => {
                        o.push((to_string(key), val));
                        let r = Json::Object(o);
                        proof { lemma_model_parts(r); }
                        assert(entries_model(o@) =~= om.push((key@, val.model())));
                        r
                    },
                }
            },
            _ => {
                let mut o: Vec<(String, Json)> = Vec::new();
                o.push((to_string(key), val));
                let r = Json::Object(o);
                proof { lemma_model_parts(r); }
                assert(entries_model(o@) =~= seq![(key@, val.model())]);
                r
            },
        }
    }

    /// The value after `self[keys[from]]...[keys[last]] = val`.
    pub fn with_path(self, keys: &Vec<String>, from: usize, val: Json) -> (r: Json)
        requires
            from <= keys.len(),
            settable(self.model(), crate::text::views_str(keys@).subrange(from as int, keys@.len() as int)),
        ensures
            r.model() == jset_path(self.model(), crate::text::views_str(keys@).subrange(from as int, keys@.len() as int), val.model()),
        decreases keys.len() - from,
    {
        let ghost ks = crate::text::views_str(keys@).subrange(from as int, keys@.len() as int);
        if from == keys.len() {
            return val;
        }
        assert(ks[0] == keys@[from as int]@);
        assert(ks.subrange(1, ks.len() as int) =~= crate::text::views_str(keys@).subrange(from + 1, keys@.len() as int));
        let child = self.child_or_null(keys[from].as_str());
        let new_child = child.with_path(keys, from + 1, val);
        self.with_key(keys[from].as_str(), new_child)
    }
}

/// Assigns `val` at the path of keys (`v[k0]...[kn] = val`).
pub fn set_path(v: &mut Json, keys: &Vec<String>, val: Json)
    requires
        settable(old(v).model(), crate::text::views_str(keys@)),
    ensures
        final(v).model() == jset_path(old(v).model(), crate::text::views_str(keys@), val.model()),
{
    let mut cur = Json::Null;
    std::mem::swap(&mut cur, v);
    assert(crate::text::views_str(keys@).subrange(0, keys@.len() as int) =~= crate::text::views_str(keys@));
    let r = cur.with_path(keys, 0, val);
    *v = r;
}

/// A path of keys.
pub fn path_of(keys: &[&str]) -> (r: Vec<String>)
    ensures
        crate::text::views_str(r@) == keys@.map_values(|k: &str| k@),
{
    let mut r: Vec<String> = Vec::new();
    let mut i: usize = 0;
    while i < keys.len()
        invariant
            i <= keys.len(),
            r@.len() == i,
            forall|k: int| 0 <= k < i ==> (#[trigger] r@[k])@ == keys@[k]@,
        decreases keys.len() - i,
    {
        r.push(to_string(keys[i]));
        i = i + 1;
    }
    assert(crate::text::views_str(r@) =~= keys@.map_values(|k: &str| k@));
    r
}

/// A value read at a key of an optional value.
pub open spec fn jat(o: Option<JsonV>, key: Seq<char>) -> Option<JsonV> {
    match o {
        Some(v) => jget(v, key),
        None => None,
    }
}

/// The text of an optional value that is a string (`as_str`).
pub open spec fn jstr(o: Option<JsonV>) -> Option<Seq<char>> {
    match o {
        Some(JsonV::Str(s)) => Some(s),
        _ => None,
    }
}

/// The first element of an optional value that is a non-empty array.
pub open spec fn jfirst(o: Option<JsonV>) -> Option<JsonV> {
    match o {
        Some(JsonV::Array(a)) => if a.len() > 0 {
            Some(a[0])
        } else {
            None
        },
        _ => None,
    }
}

/// An optional value, or null.
pub open spec fn or_null(o: Option<JsonV>) -> JsonV {
    match o {
        Some(v) => v,
        None => JsonV::Null,
    }
}

/// The mathematical form of an optional reference.
pub open spec fn opt_model(o: Option<&Json>) -> Option<JsonV> {
    match o {
        Some(v) => Some(v.model()),
        None => None,
    }
}

impl Json {
    /// The text of a string value (`Value::as_str`).
    pub fn as_str(&self) -> (r: Option<&String>)
        ensures
            match r {
                Some(s) => self.model() == JsonV::Str(s@),
                None => !(self.model() is Str),
            },
    {
        match self {
            Json::Str(s) => Some(s),
            _ => None,
        }
    }

    /// The elements of an array value (`Value::as_array`).
    pub fn as_array(&self) -> (r: Option<&Vec<Json>>)
        ensures
            match r {
                Some(a) => self.model() == JsonV::Array(elements_model(a@)),
                None => !(self.model() is Array),
            },
    {
        proof { lemma_model_parts(*self); }
        match self {
            Json::Array(a) => Some(a),
            _ => None,
        }
    }

    /// The entries of an object value (`Value::as_object`).
    pub fn as_object(&self) -> (r: Option<&Vec<(String, Json)>>)
        ensures
            match r {
                Some(o) => self.model() == JsonV::Object(entries_model(o@)),
                None => !(self.model() is Object),
            },
    {
        proof { lemma_model_parts(*self); }
        match self {
            Json::Object(o) => Some(o),
            _ => None,
        }
    }
}

/// The value at a key of an optional value.
pub fn at<'a>(o: Option<&'a Json>, key: &str) -> (r: Option<&'a Json>)
    ensures
        opt_model(r) == jat(opt_model(o), key@),
{
    match o {
        Some(v) => v.get(key),
        None => None,
    }
}

/// The text of an optional string value.
pub fn str_of<'a>(o: Option<&'a Json>) -> (r: Option<&'a String>)
    ensures
        match r {
            Some(s) => jstr(opt_model(o)) == Some(s@),
            None => jstr(opt_model(o)) is None,
        },
{
    match o {
        Some(v) => v.as_str(),
        None => None,
    }
}

/// The first element of an optional non-empty array value.
pub fn first_of<'a>(o: Option<&'a Json>) -> (r: Option<&'a Json>)
    ensures
        opt_model(r) == jfirst(opt_model(o)),
{
    match o {
        Some(v) => match v.as_array() {
            Some(a) => if a.len() > 0 {
                Some(&a[0])
            } else {
                None
            },
            None => None,
        },
        None => None,
    }
}

/// A copy of an optional value, or null.
pub fn cloned_or_null(o: Option<&Json>) -> (r: Json)
    ensures
        r.model() == or_null(opt_model(o)),
{
    match o {
        Some(v) => v.deep_clone(),
        None => Json::Null,
    }
}

/// The character of a decimal digit.
pub open spec fn digit_char(d: nat) -> char {
    seq!['0', '1', '2', '3', '4', '5', '6', '7', '8', '9'][d as int]
}

/// The decimal text of a natural number, as `serde_json` writes integers.
pub open spec fn decimal(n: nat) -> Seq<char>
    decreases n,
{
    if n < 10 {
        seq![digit_char(n)]
    } else {
        decimal(n / 10).push(digit_char(n % 10))
    }
}

fn digit_char_exec(d: u64) -> (c: char)
    requires
        d < 10,
    ensures
        c == digit_char(d as nat),
{
    if d == 0 { '0' } else if d == 1 { '1' } else if d == 2 { '2' } else if d == 3 { '3' } else if d == 4 {
        '4'
    } else if d == 5 { '5' } else if d == 6 { '6' } else if d == 7 { '7' } else if d == 8 { '8' } else { '9' }
}

fn push_decimal(out: &mut Vec<char>, n: u64)
    ensures
        final(out)@ == old(out)@ + decimal(n as nat),
    decreases n,
{
    if n >= 10 {
        push_decimal(out, n / 10);
    }
    out.push(digit_char_exec(n % 10));
}

/// The decimal text of an integer.
pub fn decimal_text(n: u64) -> (r: String)
    ensures
        r@ == decimal(n as nat),
{
    let mut out: Vec<char> = Vec::new();
    push_decimal(&mut out, n);
    assert(out@ =~= decimal(n as nat));
    crate::text::string_of(out.as_slice())
}

/// A number value holding an integer.
pub fn number_of(n: u64) -> (r: Json)
    ensures
        r.model() == JsonV::Number(decimal(n as nat)),
{
    Json::Number(decimal_text(n))
}

/// The integer of a number value that is a non-negative integer fitting in a
/// `u64` (`Value::as_u64`).
pub open spec fn as_u64(v: JsonV) -> Option<u64> {
    match v {
        JsonV::Number(t) => if t.len() > 0 && all_digits(t) && digits_value(t) <= u64::MAX {
            Some(digits_value(t) as u64)
        } else {
            None
        },
        _ => None,
    }
}

impl Json {
    /// The integer of a number value that is a non-negative integer fitting
    /// in a `u64` (`Value::as_u64`).
    pub fn as_u64(&self) -> (r: Option<u64>)
        ensures
            r == as_u64(self.model()),
    {
        let t = match self {
            Json::Number(t) => chars_of(t.as_str()),
            _ => return None,
        };
        if t.len() == 0 {
            return None;
        }
        assert(self.model() == JsonV::Number(t@));
        let mut i: usize = 0;
        while i < t.len()
            invariant
                i <= t.len(),
                self.model() == JsonV::Number(t@),
                forall|k: int| 0 <= k < i ==> is_digit(#[trigger] t@[k]),
            decreases t.len() - i,
        {
            if !('0' <= t[i] && t[i] <= '9') {
                assert(!is_digit(t@[i as int]));
                return None;
            }
            i = i + 1;
        }
        assert(all_digits(t@));
        let mut value: u128 = 0;
        let mut j: usize = 0;
        while j < t.len()
            invariant
                j <= t.len(),
                self.model() == JsonV::Number(t@),
                all_digits(t@),
                value == digits_value(t@.subrange(0, j as int)),
                value <= u64::MAX,
            decreases t.len() - j,
        {
            let c = t[j];
            assert(is_digit(t@[j as int]));
            let digit: u128 = (c as u32 - '0' as u32) as u128;
            assert(t@.subrange(0, j + 1).drop_last() =~= t@.subrange(0, j as int));
            let next: u128 = value * 10 + digit;
            assert(next == digits_value(t@.subrange(0, j + 1)));
            if next > 0xFFFF_FFFF_FFFF_FFFF {
                proof { lemma_digits_value_prefix(t@, j + 1); }
                return None;
            }
            value = next;
            j = j + 1;
        }
        assert(t@.subrange(0, t@.len() as int) =~= t@);
        Some(value as u64)
    }
}

/// Every string value with `’` turned into `'` (keys are left as they are).
pub open spec fn quotes_fixed(v: JsonV) -> JsonV
    decreases v,
{
    match v {
        JsonV::Str(s) => JsonV::Str(map_char(s, '\u{2019}', '\'')),
        JsonV::Array(a) => JsonV::Array(
            Seq::new(a.len(), |i: int| if 0 <= i < a.len() { quotes_fixed(a[i]) } else { JsonV::Null }),
        ),
        JsonV::Object(es) => JsonV::Object(
            Seq::new(
                es.len(),
                |i: int|
                    if 0 <= i < es.len() {
                        (es[i].0, quotes_fixed(es[i].1))
                    } else {
                        (Seq::<char>::empty(), JsonV::Null)
                    },
            ),
        ),
        _ => v,
    }
}

/// No string value holds `’`.
pub open spec fn no_curly_quote(v: JsonV) -> bool
    decreases v,
{
    match v {
        JsonV::Str(s) => !s.contains('\u{2019}'),
        JsonV::Array(a) => forall|i: int| 0 <= i < a.len() ==> no_curly_quote(#[trigger] a[i]),
        JsonV::Object(es) => forall|i: int| 0 <= i < es.len() ==> no_curly_quote(#[trigger] es[i].1),
        _ => true,
    }
}

/// Fixing quotes leaves no `’` in any string value, and fixing them again
/// changes nothing.
pub proof fn lemma_quotes_fixed(v: JsonV)
    ensures
        no_curly_quote(quotes_fixed(v)),
        quotes_fixed(quotes_fixed(v)) == quotes_fixed(v),
    decreases v,
{
    match v {
        JsonV::Str(s) => {
            let t = map_char(s, '\u{2019}', '\'');
            if t.contains('\u{2019}') {
                let k = choose|k: int| 0 <= k < t.len() && t[k] == '\u{2019}';
            }
            assert(map_char(t, '\u{2019}', '\'') =~= t);
        },
        JsonV::Array(a) => {
            let f = quotes_fixed(v);
            if let JsonV::Array(b) = f {
                assert forall|i: int| 0 <= i < b.len() implies no_curly_quote(#[trigger] b[i]) && quotes_fixed(b[i]) == b[i] by {
                    assert(decreases_to!(v => a[i]));
                    lemma_quotes_fixed(a[i]);
                }
                if let JsonV::Array(c) = quotes_fixed(f) {
                    assert(c =~= b);
                }
            }
        },
        JsonV::Object(es) => {
            let f = quotes_fixed(v);
            if let JsonV::Object(b) = f {
                assert forall|i: int| 0 <= i < b.len() implies no_curly_quote(#[trigger] b[i].1) && quotes_fixed(b[i].1) == b[i].1 by {
                    assert(decreases_to!(v => es[i].1));
                    lemma_quotes_fixed(es[i].1);
                }
                if let JsonV::Object(c) = quotes_fixed(f) {
                    assert(c =~= b);
                }
            }
        },
        _ => {},
    }
}

/// A copy of the value with `’` turned into `'` in every string value.
pub fn quotes_fixed_copy(v: &Json) -> (r: Json)
    ensures
        r.model() == quotes_fixed(v.model()),
    decreases v,
{
    match v {
        Json::Null => Json::Null,
        Json::Bool(b) => Json::Bool(*b),
        Json::Number(n) => Json::Number(n.clone()),
        Json::Str(s) => {
            let c = chars_of(s.as_str());
            let f = crate::text::replace_char(&c, '\u{2019}', '\'');
            Json::Str(crate::text::string_of(f.as_slice()))
        },
        Json::Array(a) => {
            let mut out: Vec<Json> = Vec::new();
            let mut i: usize = 0;
            while i < a.len()
                invariant
                    i <= a.len(),
                    *v == Json::Array(*a),
                    out@.len() == i,
                    forall|k: int| 0 <= k < i ==> (#[trigger] out@[k]).model() == quotes_fixed(a@[k].model()),
                decreases a.len() - i,
            {
                proof {
                    assert(decreases_to!(*a => a@));
                    assert(decreases_to!(a@ => a@[i as int]));
                    assert(v->Array_0 == *a);
                    assert(decreases_to!(*v => v->Array_0));
                    assert(decreases_to!(*v => a@[i as int]));
                }
                let c = quotes_fixed_copy(&a[i]);
                out.push(c);
                i = i + 1;
            }
            let r = Json::Array(out);
            proof {
                lemma_model_parts(r);
                lemma_model_parts(*v);
                if let JsonV::Array(x) = r.model() {
                    if let JsonV::Array(y) = quotes_fixed(v.model()) {
                        assert(x =~= y);
                    }
                }
            }
            r
        },
        Json::Object(o) => {
            let mut out: Vec<(String, Json)> = Vec::new();
            let mut i: usize = 0;
            while i < o.len()
                invariant
                    i <= o.len(),
                    *v == Json::Object(*o),
                    out@.len() == i,
                    forall|k: int| 0 <= k < i ==> (#[trigger] out@[k]).0@ == o@[k].0@ && out@[k].1.model() == quotes_fixed(o@[k].1.model()),
                decreases o.len() - i,
            {
                proof {
                    assert(decreases_to!(*o => o@));
                    assert(decreases_to!(o@ => o@[i as int]));
                    assert(decreases_to!(o@[i as int] => o@[i as int].1));
                    assert(v->Object_0 == *o);
                    assert(decreases_to!(*v => v->Object_0));
                    assert(decreases_to!(*v => o@[i as int].1));
                }
                let c = quotes_fixed_copy(&o[i].1);
                out.push((o[i].0.clone(), c));
                i = i + 1;
            }
            let r = Json::Object(out);
            proof {
                lemma_model_parts(r);
                lemma_model_parts(*v);
                if let JsonV::Object(x) = r.model() {
                    if let JsonV::Object(y) = quotes_fixed(v.model()) {
                        assert(x =~= y);
                    }
                }
            }
            r
        },
    }
}

/// Turns `’` into `'` in every string value.
pub fn sanitize_quotes(v: &mut Json)
    ensures
        final(v).model() == quotes_fixed(old(v).model()),
{
    let r = quotes_fixed_copy(v);
    *v = r;
}

/// `serde_json::Value`, held as it is; what it holds is `json_value_model`.
#[verifier::external_type_specification]
#[verifier::external_body]
pub struct ExJsonValue(serde_json::Value);

/// The mathematical form of a `serde_json::Value`: numbers by the text it
/// writes them with, objects by their entries in the map's iteration order.
pub uninterp spec fn json_value_model(v: serde_json::Value) -> JsonV;

/// What a TOML text becomes as JSON (`toml::from_str::<toml::Value>`, then
/// `serde_json::to_value`): none when the text is not TOML.
pub uninterp spec fn toml_json(text: Seq<char>) -> Option<JsonV>;

/// `toml::from_str::<toml::Value>` and `serde_json::to_value`: the JSON form of
/// a TOML text, none when it is not TOML (or cannot be put as JSON).
#[verifier::external_body]
fn toml_to_value(text: &str) -> (r: Option<serde_json::Value>)
    ensures
        match r {
            Some(v) => toml_json(text@) == Some(json_value_model(v)),
            None => toml_json(text@) is None,
        },
{
    let parsed: toml::Value = toml::from_str(text).ok()?;
    serde_json::to_value(parsed).ok()
}

/// Which variant a `serde_json::Value` is: 0 null, 1 boolean, 2 number,
/// 3 string, 4 array, 5 object.
#[verifier::external_body]
fn value_kind(v: &serde_json::Value) -> (r: u8)
    ensures
        r == 0 <==> json_value_model(*v) is Null,
        r == 1 <==> json_value_model(*v) is Bool,
        r == 2 <==> json_value_model(*v) is Number,
        r == 3 <==> json_value_model(*v) is Str,
        r == 4 <==> json_value_model(*v) is Array,
        r == 5 <==> json_value_model(*v) is Object,
{
    match v {
        serde_json::Value::Null => 0,
        serde_json::Value::Bool(_) => 1,
        serde_json::Value::Number(_) => 2,
        serde_json::Value::String(_) => 3,
        serde_json::Value::Array(_) => 4,
        serde_json::Value::Object(_) => 5,
    }
}

/// The boolean of a boolean value.
#[verifier::external_body]
fn value_bool(v: &serde_json::Value) -> (r: bool)
    requires
        json_value_model(*v) is Bool,
    ensures
        json_value_model(*v) == JsonV::Bool(r),
{
    v.as_bool().unwrap_or(false)
}

/// The text of a number value (`Number`'s `Display`), or of a string value.
#[verifier::external_body]
fn value_text(v: &serde_json::Value) -> (r: String)
    requires
        json_value_model(*v) is Number || json_value_model(*v) is Str,
    ensures
        json_value_model(*v) is Number ==> json_value_model(*v) == JsonV::Number(r@),
        json_value_model(*v) is Str ==> json_value_model(*v) == JsonV::Str(r@),
{
    match v {
        serde_json::Value::Number(n) => n.to_string(),
        serde_json::Value::String(s) => s.clone(),
        _ => String::new(),
    }
}

/// The elements of an array value.
#[verifier::external_body]
fn value_elements(v: &serde_json::Value) -> (r: Vec<&serde_json::Value>)
    requires
        json_value_model(*v) is Array,
    ensures
        json_value_model(*v) == JsonV::Array(Seq::new(r@.len(), |i: int| json_value_model(*r@[i]))),
{
    match v {
        serde_json::Value::Array(a) => a.iter().collect(),
        _ => Vec::new(),
    }
}

/// The entries of an object value, in the map's iteration order.
#[verifier::external_body]
fn value_entries(v: &serde_json::Value) -> (r: Vec<(String, &serde_json::Value)>)
    requires
        json_value_model(*v) is Object,
    ensures
        json_value_model(*v) == JsonV::Object(Seq::new(r@.len(), |i: int| (r@[i].0@, json_value_model(*r@[i].1)))),
{
    match v {
        serde_json::Value::Object(m) => m.iter().map(|(k, x)| (k.clone(), x)).collect(),
        _ => Vec::new(),
    }
}

/// A `serde_json::Value` as the library's JSON value.
fn json_of_value(v: &serde_json::Value) -> (r: Json)
    ensures
        r.model() == json_value_model(*v),
    decreases json_value_model(*v),
{
    let k = value_kind(v);
    if k == 0 {
        Json::Null
    } else if k == 1 {
        Json::Bool(value_bool(v))
    } else if k == 2 {
        Json::Number(value_text(v))
    } else if k == 3 {
        Json::Str(value_text(v))
    } else if k == 4 {
        let es = value_elements(v);
        let ghost a = json_value_model(*v)->Array_0;
        let mut out: Vec<Json> = Vec::new();
        let mut i: usize = 0;
        while i < es.len()
            invariant
                i <= es.len(),
                json_value_model(*v) == JsonV::Array(a),
                a.len() == es@.len(),
                forall|j: int| 0 <= j < es@.len() ==> a[j] == json_value_model(*es@[j]),
                out@.len() == i,
                forall|j: int| 0 <= j < i ==> (#[trigger] out@[j]).model() == a[j],
            decreases es.len() - i,
        {
            proof {
                let m = json_value_model(*v);
                assert(decreases_to!(m => m->Array_0));
                assert(decreases_to!(a => a[i as int]));
            }
            let c = json_of_value(es[i]);
            out.push(c);
            i = i + 1;
        }
        let r = Json::Array(out);
        proof {
            lemma_model_parts(r);
            assert(elements_model(out@) =~= a);
        }
        r
    } else {
        let es = value_entries(v);
        let ghost a = json_value_model(*v)->Object_0;
        let mut out: Vec<(String, Json)> = Vec::new();
        let mut i: usize = 0;
        while i < es.len()
            invariant
                i <= es.len(),
                json_value_model(*v) == JsonV::Object(a),
                a.len() == es@.len(),
                forall|j: int| 0 <= j < es@.len() ==> a[j] == (es@[j].0@, json_value_model(*es@[j].1)),
                out@.len() == i,
                forall|j: int| 0 <= j < i ==> (#[trigger] out@[j]).0@ == a[j].0 && out@[j].1.model() == a[j].1,
            decreases es.len() - i,
        {
            proof {
                let m = json_value_model(*v);
                assert(decreases_to!(m => m->Object_0));
                assert(decreases_to!(a => a[i as int]));
                assert(decreases_to!(a[i as int] => a[i as int].1));
            }
            let c = json_of_value(es[i].1);
            out.push((es[i].0.clone(), c));
            i = i + 1;
        }
        let r = Json::Object(out);
        proof {
            lemma_model_parts(r);
            assert(entries_model(out@) =~= a);
        }
        r
    }
}

/// The JSON form of a TOML text (a metadata file), none when it is not TOML.
pub fn metadata_json_of_toml(text: &str) -> (r: Option<Json>)
    ensures
        match r {
            Some(j) => toml_json(text@) == Some(j.model()),
            None => toml_json(text@) is None,
        },
{
    match toml_to_value(text) {
        Some(v) => Some(json_of_value(&v)),
        None => None,
    }
}

} // verus!
