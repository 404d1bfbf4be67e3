//! A JSON document model and the dotted-path operations on it.

use vstd::prelude::*;

verus! {

/// A JSON value as the configuration code handles it. Numbers are kept in
/// their textual form; object entries are kept in document order.
#[derive(Debug, PartialEq)]
pub enum JsonValue {
    Null,
    Bool(bool),
    Number(String),
    Str(String),
    Array(Vec<JsonValue>),
    Object(Vec<(String, JsonValue)>),
}

/// The mathematical form of a JSON value.
pub enum Json {
    Null,
    Bool(bool),
    Number(Seq<char>),
    Str(Seq<char>),
    Array(Seq<Json>),
    Object(Seq<(Seq<char>, Json)>),
}

/// The mathematical form of `v`.
pub open spec fn json_view(v: &JsonValue) -> Json
    decreases v,
{
    match v {
        JsonValue::Null => Json::Null,
        JsonValue::Bool(b) => Json::Bool(*b),
        JsonValue::Number(n) => Json::Number(n@),
        JsonValue::Str(s) => Json::Str(s@),
        JsonValue::Array(items) => Json::Array(
            Seq::new(items@.len(), |i: int| if 0 <= i < items@.len() { json_view(&items@[i]) } else { Json::Null }),
        ),
        JsonValue::Object(es) => Json::Object(
            Seq::new(es@.len(), |i: int| if 0 <= i < es@.len() { (es@[i].0@, json_view(&es@[i].1)) } else { (Seq::empty(), Json::Null) }),
        ),
    }
}


#[verifier::external_type_specification]
#[verifier::external_body]
pub struct ExSerdeJsonValue(serde_json::Value);

/// What `serde_json::from_str::<serde_json::Value>` reads from the text
/// `raw`, in the form of this model (object entries in the order of the
/// parsed map); none when `raw` is not JSON.
pub uninterp spec fn json_text(raw: Seq<char>) -> Option<Json>;

/// A `serde_json::Value` in this model: numbers in their textual form,
/// object entries in the order of the map. Nothing is stated of the
/// result; [`parse_json_text`] names it.
#[verifier::external_body]
fn from_serde(v: &serde_json::Value) -> JsonValue {
    match v {
        serde_json::Value::Null => JsonValue::Null,
        serde_json::Value::Bool(b) => JsonValue::Bool(*b),
        serde_json::Value::Number(n) => JsonValue::Number(n.to_string()),
        serde_json::Value::String(s) => JsonValue::Str(s.clone()),
        serde_json::Value::Array(items) => JsonValue::Array(items.iter().map(from_serde).collect()),
        serde_json::Value::Object(m) => JsonValue::Object(m.iter().map(|(k, x)| (k.clone(), from_serde(x))).collect()),
    }
}

/// Parses `raw` as JSON with `serde_json::from_str::<serde_json::Value>`:
/// the value read, or none when `raw` is not JSON. The result is what
/// [`json_text`] names for `raw`.
#[verifier::external_body]
pub(crate) fn parse_json_text(raw: &str) -> (r: Option<JsonValue>)
    ensures
        match r {
            Some(v) => json_text(raw@) == Some(json_view(&v)),
            None => json_text(raw@) is None,
        },
{
    match serde_json::from_str::<serde_json::Value>(raw) {
        Ok(v) => Some(from_serde(&v)),
        Err(_) => None,
    }
}

/// The mathematical form of a list of object entries.
pub open spec fn entries_view(es: Seq<(String, JsonValue)>) -> Seq<(Seq<char>, Json)> {
    Seq::new(es.len(), |i: int| (es[i].0@, json_view(&es[i].1)))
}

/// The mathematical form of an object is the form of its entries.
pub proof fn lemma_object_view(es: Vec<(String, JsonValue)>)
    ensures
        json_view(&JsonValue::Object(es)) == Json::Object(entries_view(es@)),
{
    let x = json_view(&JsonValue::Object(es));
    match x {
        Json::Object(s) => {
            assert(s.len() == es@.len());
            assert forall|i: int| 0 <= i < s.len() implies s[i] == entries_view(es@)[i] by {}
            assert(s =~= entries_view(es@));
        },
        _ => {},
    }
}

/// Position of the first entry named `k`.
pub open spec fn key_index(es: Seq<(Seq<char>, Json)>, k: Seq<char>) -> Option<int>
    decreases es.len(),
{
    if es.len() == 0 {
        None
    } else if es[0].0 == k {
        Some(0)
    } else {
        match key_index(es.drop_first(), k) {
            Some(i) => Some(i + 1),
            None => None,
        }
    }
}

/// The value of the first entry named `k`, as a JSON object lookup.
pub open spec fn lookup(es: Seq<(Seq<char>, Json)>, k: Seq<char>) -> Option<Json> {
    match key_index(es, k) {
        Some(i) => Some(es[i].1),
        None => None,
    }
}

/// `es` with the entry named `k` set to `v`: replaced in place if present,
/// appended otherwise (an object insert).
pub open spec fn upsert(es: Seq<(Seq<char>, Json)>, k: Seq<char>, v: Json) -> Seq<(Seq<char>, Json)> {
    match key_index(es, k) {
        Some(i) => es.update(i, (k, v)),
        None => es.push((k, v)),
    }
}

/// `key_index` finds the first entry with the key, or reports there is none.
pub proof fn lemma_key_index(es: Seq<(Seq<char>, Json)>, k: Seq<char>)
    ensures
        match key_index(es, k) {
            Some(i) => 0 <= i < es.len() && es[i].0 == k && forall|j: int| 0 <= j < i ==> es[j].0 != k,
            None => forall|j: int| 0 <= j < es.len() ==> es[j].0 != k,
        },
    decreases es.len(),
{
    if es.len() > 0 && es[0].0 != k {
        lemma_key_index(es.drop_first(), k);
        assert forall|j: int| 0 < j < es.len() implies #[trigger] es[j] == es.drop_first()[j - 1] by {}
    }
}

/// A characterization of `key_index` by its defining property.
pub proof fn lemma_key_index_is(es: Seq<(Seq<char>, Json)>, k: Seq<char>, r: Option<int>)
    requires
        match r {
            Some(i) => 0 <= i < es.len() && es[i].0 == k && forall|j: int| 0 <= j < i ==> es[j].0 != k,
            None => forall|j: int| 0 <= j < es.len() ==> es[j].0 != k,
        },
    ensures
        key_index(es, k) == r,
{
    lemma_key_index(es, k);
    match key_index(es, k) {
        Some(a) => {
            match r {
                Some(b) => {
                    if a < b {
                        assert(es[a].0 != k);
                    } else if b < a {
                        assert(es[b].0 != k);
                    }
                },
                None => {
                    assert(es[a].0 != k);
                },
            }
        },
        None => {
            match r {
                Some(b) => {
                    assert(es[b].0 != k);
                },
                None => {},
            }
        },
    }
}

/// After an insert, the key maps to the inserted value.
pub proof fn lemma_lookup_upsert_same(es: Seq<(Seq<char>, Json)>, k: Seq<char>, v: Json)
    ensures
        lookup(upsert(es, k, v), k) == Some(v),
{
    lemma_key_index(es, k);
    let u = upsert(es, k, v);
    match key_index(es, k) {
        Some(i) => {
            lemma_key_index_is(u, k, Some(i));
        },
        None => {
            lemma_key_index_is(u, k, Some(es.len() as int));
        },
    }
}

/// An insert leaves the other keys as they were.
pub proof fn lemma_lookup_upsert_other(es: Seq<(Seq<char>, Json)>, k: Seq<char>, v: Json, q: Seq<char>)
    requires
        q != k,
    ensures
        lookup(upsert(es, k, v), q) == lookup(es, q),
{
    lemma_key_index(es, k);
    lemma_key_index(es, q);
    let u = upsert(es, k, v);
    match key_index(es, q) {
        Some(i) => {
            lemma_key_index_is(u, q, Some(i));
        },
        None => {
            lemma_key_index_is(u, q, None);
        },
    }
}

/// The entries of an object, or none for any other value.
pub open spec fn entries_of(v: Json) -> Seq<(Seq<char>, Json)> {
    match v {
        Json::Object(es) => es,
        _ => Seq::empty(),
    }
}

/// The value reached from `v` by following the keys in `parts`, as
/// `get_path` does for a dotted configuration key.
pub open spec fn get_path(v: Json, parts: Seq<Seq<char>>) -> Option<Json>
    decreases parts.len(),
{
    if parts.len() == 0 {
        Some(v)
    } else {
        match v {
            Json::Object(es) => match lookup(es, parts[0]) {
                Some(c) => get_path(c, parts.drop_first()),
                None => None,
            },
            _ => None,
        }
    }
}

/// `v` with the value at the key path `parts` set to `new`. Every value on
/// the way that is not an object is replaced by an object; missing
/// objects are created.
pub open spec fn set_path(v: Json, parts: Seq<Seq<char>>, new: Json) -> Json
    decreases parts.len(),
{
    if parts.len() == 0 {
        new
    } else {
        let es = entries_of(v);
        if parts.len() == 1 {
            Json::Object(upsert(es, parts[0], new))
        } else {
            let child = match lookup(es, parts[0]) {
                Some(c) => c,
                None => Json::Object(Seq::empty()),
            };
            Json::Object(upsert(es, parts[0], set_path(child, parts.drop_first(), new)))
        }
    }
}

/// A key path is split from a dotted key at every `.`.
pub open spec fn key_parts(key: Seq<char>) -> Seq<Seq<char>> {
    crate::text::split(key, '.')
}

/// Reading a path gives back what was last written there.
pub proof fn lemma_get_set_same(v: Json, parts: Seq<Seq<char>>, new: Json)
    ensures
        get_path(set_path(v, parts, new), parts) == Some(new),
    decreases parts.len(),
{
    if parts.len() == 1 {
        lemma_lookup_upsert_same(entries_of(v), parts[0], new);
    } else if parts.len() > 1 {
        let es = entries_of(v);
        let child = match lookup(es, parts[0]) {
            Some(c) => c,
            None => Json::Object(Seq::empty()),
        };
        lemma_get_set_same(child, parts.drop_first(), new);
        lemma_lookup_upsert_same(es, parts[0], set_path(child, parts.drop_first(), new));
    }
}

/// `p` and `q` part ways: at some position both have a key and the keys
/// differ.
pub open spec fn diverge(p: Seq<Seq<char>>, q: Seq<Seq<char>>) -> bool {
    exists|i: int| 0 <= i < p.len() && i < q.len() && p[i] != q[i]
}

/// Writing one path leaves every path that parts ways with it unchanged.
pub proof fn lemma_get_set_other(v: Json, p: Seq<Seq<char>>, new: Json, q: Seq<Seq<char>>)
    requires
        diverge(p, q),
    ensures
        get_path(set_path(v, p, new), q) == get_path(v, q),
    decreases p.len(),
{
    let i = choose|i: int| 0 <= i < p.len() && i < q.len() && p[i] != q[i];
    let es = entries_of(v);
    if p[0] != q[0] {
        if p.len() == 1 {
            lemma_lookup_upsert_other(es, p[0], new, q[0]);
        } else {
            let child = match lookup(es, p[0]) {
                Some(c) => c,
                None => Json::Object(Seq::empty()),
            };
            lemma_lookup_upsert_other(es, p[0], set_path(child, p.drop_first(), new), q[0]);
        }
        match v {
            Json::Object(_) => {},
            _ => {
                assert(lookup(Seq::empty(), q[0]) is None);
            },
        }
    } else {
        assert(i > 0);
        assert(p.drop_first()[i - 1] != q.drop_first()[i - 1]);
        assert(p.len() > 1);
        let child = match lookup(es, p[0]) {
            Some(c) => c,
            None => Json::Object(Seq::empty()),
        };
        lemma_get_set_other(child, p.drop_first(), new, q.drop_first());
        lemma_lookup_upsert_same(es, p[0], set_path(child, p.drop_first(), new));
        match lookup(es, p[0]) {
            Some(c) => {
                match v {
                    Json::Object(_) => {},
                    _ => {
                        assert(lookup(Seq::empty(), p[0]) is None);
                    },
                }
            },
            None => {
                if q.drop_first().len() > 0 {
                    assert(lookup(Seq::<(Seq<char>, Json)>::empty(), q.drop_first()[0]) is None);
                }
                match v {
                    Json::Object(_) => {},
                    _ => {},
                }
            },
        }
    }
}


/// The key under which the entry `k` of an object at `prefix` is listed.
pub open spec fn child_key(prefix: Seq<char>, k: Seq<char>) -> Seq<char> {
    if prefix.len() == 0 {
        k
    } else {
        prefix + seq!['.'] + k
    }
}

/// Every non-object value in `v` with its dotted key path, objects being
/// walked in entry order (the listing of `last config list`).
pub open spec fn flatten(prefix: Seq<char>, v: Json) -> Seq<(Seq<char>, Json)>
    decreases v, 0nat,
{
    match v {
        Json::Object(es) => flatten_entries(prefix, es, es.len()),
        _ => seq![(prefix, v)],
    }
}

/// The listing of the first `n` entries of an object at `prefix`.
pub open spec fn flatten_entries(prefix: Seq<char>, es: Seq<(Seq<char>, Json)>, n: nat) -> Seq<(Seq<char>, Json)>
    decreases es, n,
{
    if n == 0 || n > es.len() {
        Seq::empty()
    } else {
        flatten_entries(prefix, es, (n - 1) as nat) + flatten(child_key(prefix, es[n - 1].0), es[n - 1].1)
    }
}

/// The mathematical form of a list of array items.
pub open spec fn items_view(items: Seq<JsonValue>) -> Seq<Json> {
    Seq::new(items.len(), |i: int| json_view(&items[i]))
}

/// The mathematical form of an array is the form of its items.
pub proof fn lemma_array_view(items: Vec<JsonValue>)
    ensures
        json_view(&JsonValue::Array(items)) == Json::Array(items_view(items@)),
{
    let x = json_view(&JsonValue::Array(items));
    match x {
        Json::Array(s) => {
            assert forall|i: int| 0 <= i < s.len() implies s[i] == items_view(items@)[i] by {}
            assert(s =~= items_view(items@));
        },
        _ => {},
    }
}

impl JsonValue {
    /// A deep copy.
    #[verifier::loop_isolation(false)]
    pub fn copy(&self) -> (r: JsonValue)
        ensures
            json_view(&r) == json_view(self),
        decreases self,
    {
        match self {
            JsonValue::Null => JsonValue::Null,
            JsonValue::Bool(b) => JsonValue::Bool(*b),
            JsonValue::Number(n) => JsonValue::Number(n.clone()),
            JsonValue::Str(s) => JsonValue::Str(s.clone()),
            JsonValue::Array(items) => {
                let mut out: Vec<JsonValue> = Vec::new();
                let mut i: usize = 0;
                while i < items.len()
                    invariant
                        i <= items@.len(),
                        out@.len() == i,
                        forall|j: int| 0 <= j < i ==> json_view(&#[trigger] out@[j]) == json_view(&items@[j]),
                    decreases items@.len() - i,
                {
                    assert(decreases_to!(self => items@[i as int]));
                    out.push(items[i].copy());
                    i = i + 1;
                }
                proof {
                    lemma_array_view(out);
                    lemma_array_view(*items);
                    assert(items_view(out@) =~= items_view(items@));
                }
                JsonValue::Array(out)
            },
            JsonValue::Object(es) => {
                let mut out: Vec<(String, JsonValue)> = Vec::new();
                let mut i: usize = 0;
                while i < es.len()
                    invariant
                        i <= es@.len(),
                        out@.len() == i,
                        forall|j: int| 0 <= j < i ==> (#[trigger] out@[j]).0@ == es@[j].0@ && json_view(&out@[j].1) == json_view(&es@[j].1),
                    decreases es@.len() - i,
                {
                    assert(decreases_to!(self => es@[i as int].1));
                    let v = es[i].1.copy();
                    out.push((es[i].0.clone(), v));
                    i = i + 1;
                }
                proof {
                    lemma_object_view(out);
                    lemma_object_view(*es);
                    assert(entries_view(out@) =~= entries_view(es@));
                }
                JsonValue::Object(out)
            },
        }
    }
}

/// The first entry of `es` named `k`.
fn find_key(es: &Vec<(String, JsonValue)>, k: &str) -> (r: Option<usize>)
    ensures
        key_index(entries_view(es@), k@) == match r {
            Some(j) => Some(j as int),
            None => None::<int>,
        },
        r matches Some(j) ==> j < es@.len(),
{
    let mut j: usize = 0;
    while j < es.len()
        invariant
            j <= es@.len(),
            forall|i: int| 0 <= i < j ==> (#[trigger] es@[i]).0@ != k@,
        decreases es@.len() - j,
    {
        if crate::text::str_eq(es[j].0.as_str(), k) {
            proof {
                lemma_key_index_is(entries_view(es@), k@, Some(j as int));
            }
            return Some(j);
        }
        j = j + 1;
    }
    proof {
        lemma_key_index_is(entries_view(es@), k@, None);
    }
    None
}

pub proof fn lemma_split_nonempty(s: Seq<char>, c: char)
    ensures
        crate::text::split(s, c).len() >= 1,
{
}

/// The value at a dotted key path (`mirror.binary_share`), as
/// `Config::get` looks it up.
pub fn get_path_exec(value: &JsonValue, key: &str) -> (r: Option<JsonValue>)
    ensures
        match r {
            Some(x) => get_path(json_view(value), key_parts(key@)) == Some(json_view(&x)),
            None => get_path(json_view(value), key_parts(key@)) is None,
        },
{
    let parts = crate::text::split_exec(key, '.');
    let ghost ps = crate::text::views(parts@);
    let mut cur: &JsonValue = value;
    let mut i: usize = 0;
    proof {
        assert(ps.subrange(0, ps.len() as int) == ps);
    }
    while i < parts.len()
        invariant
            ps == crate::text::views(parts@),
            ps == key_parts(key@),
            i <= parts@.len(),
            get_path(json_view(value), ps) == get_path(json_view(cur), ps.subrange(i as int, ps.len() as int)),
        decreases parts@.len() - i,
    {
        let ghost rest = ps.subrange(i as int, ps.len() as int);
        proof {
            assert(rest.drop_first() == ps.subrange(i + 1, ps.len() as int));
            assert(rest[0] == parts@[i as int]@);
        }
        match cur {
            JsonValue::Object(es) => {
                proof {
                    lemma_object_view(*es);
                }
                match find_key(es, parts[i].as_str()) {
                    Some(j) => {
                        cur = &es[j].1;
                    },
                    None => {
                        return None;
                    },
                }
            },
            _ => {
                return None;
            },
        }
        i = i + 1;
    }
    Some(cur.copy())
}

fn set_in(v: JsonValue, parts: &Vec<String>, i: usize, new: JsonValue) -> (r: JsonValue)
    requires
        i < parts@.len(),
    ensures
        json_view(&r) == set_path(
            json_view(&v),
            crate::text::views(parts@).subrange(i as int, parts@.len() as int),
            json_view(&new),
        ),
    decreases parts@.len() - i,
{
    let n = parts.len();
    let ghost ps = crate::text::views(parts@).subrange(i as int, parts@.len() as int);
    let ghost old_es = entries_of(json_view(&v));
    let mut es: Vec<(String, JsonValue)> = match v {
        JsonValue::Object(es) => {
            proof {
                lemma_object_view(es);
            }
            es
        },
        _ => Vec::new(),
    };
    proof {
        assert(entries_view(es@) =~= old_es);
        assert(ps[0] == parts@[i as int]@);
    }
    let k = parts[i].clone();
    let found = find_key(&es, k.as_str());
    let ghost nv = json_view(&new);
    if i + 1 == parts.len() {
        let ghost es0 = es@;
        match found {
            Some(j) => {
                es.set(j, (k, new));
            },
            None => {
                es.push((k, new));
            },
        }
        proof {
            assert(entries_view(es@) =~= upsert(old_es, ps[0], nv));
            lemma_object_view(es);
        }
        JsonValue::Object(es)
    } else {
        proof {
            assert(ps.drop_first() == crate::text::views(parts@).subrange(i + 1, parts@.len() as int));
        }
        match found {
            Some(j) => {
                let ghost es0 = es@;
                let (_, child) = es.remove(j);
                proof {
                    assert(json_view(&child) == entries_view(es0)[j as int].1);
                }
                let updated = set_in(child, parts, i + 1, new);
                let ghost uv = json_view(&updated);
                es.insert(j, (k, updated));
                proof {
                    assert(es@ =~= es0.update(j as int, (k, updated)));
                    assert(entries_view(es@) =~= entries_view(es0).update(j as int, (k@, uv)));
                    lemma_object_view(es);
                }
                JsonValue::Object(es)
            },
            None => {
                let empty: Vec<(String, JsonValue)> = Vec::new();
                proof {
                    lemma_object_view(empty);
                    assert(empty@ == Seq::<(String, JsonValue)>::empty());
                    assert(entries_view(Seq::<(String, JsonValue)>::empty()) =~= Seq::empty());
                }
                let child = JsonValue::Object(empty);
                let updated = set_in(child, parts, i + 1, new);
                let ghost es0 = es@;
                let ghost uv = json_view(&updated);
                es.push((k, updated));
                proof {
                    assert(entries_view(es@) =~= entries_view(es0).push((k@, uv)));
                    lemma_object_view(es);
                }
                JsonValue::Object(es)
            },
        }
    }
}

/// Sets the value at a dotted key path, creating or replacing the objects
/// on the way, as `Config::set` does.
pub fn set_path_exec(value: &mut JsonValue, key: &str, new: JsonValue)
    ensures
        json_view(final(value)) == set_path(json_view(old(value)), key_parts(key@), json_view(&new)),
{
    let parts = crate::text::split_exec(key, '.');
    proof {
        lemma_split_nonempty(key@, '.');
        assert(crate::text::views(parts@).subrange(0, parts@.len() as int) == crate::text::views(parts@));
    }
    let mut tmp = JsonValue::Null;
    std::mem::swap(&mut tmp, value);
    *value = set_in(tmp, &parts, 0, new);
}

/// The views of a list of `(key, value)` pairs.
pub open spec fn pairs_view(out: Seq<(String, JsonValue)>) -> Seq<(Seq<char>, Json)> {
    entries_view(out)
}

/// Appends every non-object value of `value` with its dotted key path to
/// `out`.
#[verifier::loop_isolation(false)]
pub fn flatten_exec(prefix: &str, value: &JsonValue, out: &mut Vec<(String, JsonValue)>)
    ensures
        pairs_view(final(out)@) == pairs_view(old(out)@) + flatten(prefix@, json_view(value)),
    decreases value,
{
    match value {
        JsonValue::Object(es) => {
            proof {
                lemma_object_view(*es);
            }
            let ghost ev = entries_view(es@);
            let ghost start = pairs_view(out@);
            let mut i: usize = 0;
            while i < es.len()
                invariant
                    i <= es@.len(),
                    ev == entries_view(es@),
                    pairs_view(out@) == start + flatten_entries(prefix@, ev, i as nat),
                decreases es@.len() - i,
            {
                let key = if prefix.unicode_len() == 0 {
                    es[i].0.clone()
                } else {
                    let mut k = String::from_str(prefix);
                    k.append(".");
                    k.append(es[i].0.as_str());
                    k
                };
                proof {
                    reveal_strlit(".");
                    assert(key@ == child_key(prefix@, ev[i as int].0));
                }
                flatten_exec(key.as_str(), &es[i].1, out);
                proof {
                    assert(start + flatten_entries(prefix@, ev, (i + 1) as nat) =~= start + flatten_entries(prefix@, ev, i as nat) + flatten(key@, json_view(&es@[i as int].1)));
                }
                i = i + 1;
            }
        },
        _ => {
            let ghost start = out@;
            out.push((String::from_str(prefix), value.copy()));
            proof {
                assert(pairs_view(out@) =~= pairs_view(start) + seq![(prefix@, json_view(value))]);
            }
        },
    }
}

/// `overlay` merged into `base`: two objects are merged key by key (a key
/// of the overlay already in the base has the two values merged, any other
/// is added after the base's keys); any other overlay replaces the base.
pub open spec fn merge(base: Json, overlay: Json) -> Json
    decreases overlay,
{
    match base {
        Json::Object(be) => match overlay {
            Json::Object(oe) => Json::Object(merge_entries(be, oe)),
            _ => overlay,
        },
        _ => overlay,
    }
}

/// The entries `oe` merged one after the other into `be`.
pub open spec fn merge_entries(be: Seq<(Seq<char>, Json)>, oe: Seq<(Seq<char>, Json)>) -> Seq<(Seq<char>, Json)>
    decreases oe,
{
    if oe.len() == 0 {
        be
    } else {
        let acc = merge_entries(be, oe.subrange(0, oe.len() - 1));
        let k = oe[oe.len() - 1].0;
        let v = oe[oe.len() - 1].1;
        proof {
            assert(decreases_to!(oe => oe[oe.len() - 1]));
        }
        match lookup(acc, k) {
            Some(x) => upsert(acc, k, merge(x, v)),
            None => upsert(acc, k, v),
        }
    }
}

/// Merges `overlay` into `base`, as `json_merge()` in scripts does.
#[verifier::loop_isolation(false)]
pub fn json_merge(base: JsonValue, overlay: &JsonValue) -> (r: JsonValue)
    ensures
        json_view(&r) == merge(json_view(&base), json_view(overlay)),
    decreases overlay,
{
    match base {
        JsonValue::Object(es) => match overlay {
            JsonValue::Object(os) => {
                let mut es = es;
                let ghost be = entries_view(es@);
                proof {
                    lemma_object_view(es);
                    lemma_object_view(*os);
                }
                let ghost oes = entries_view(os@);
                let mut i: usize = 0;
                while i < os.len()
                    invariant
                        i <= os@.len(),
                        oes == entries_view(os@),
                        entries_view(es@) == merge_entries(be, oes.subrange(0, i as int)),
                    decreases os@.len() - i,
                {
                    proof {
                        assert(oes.subrange(0, i + 1).subrange(0, i as int) == oes.subrange(0, i as int));
                        assert(oes.subrange(0, i + 1)[i as int] == (os@[i as int].0@, json_view(&os@[i as int].1)));
                    }
                    let k = &os[i].0;
                    let v = &os[i].1;
                    match find_key(&es, k.as_str()) {
                        Some(j) => {
                            let ghost es0 = es@;
                            let (key, child) = es.remove(j);
                            proof {
                                assert(json_view(&child) == entries_view(es0)[j as int].1);
                                assert(decreases_to!(*overlay => os@[i as int].1));
                                lemma_key_index(entries_view(es0), k@);
                                assert(key@ == k@);
                            }
                            let merged = json_merge(child, v);
                            let ghost mv = json_view(&merged);
                            es.insert(j, (key, merged));
                            proof {
                                assert(es@ =~= es0.update(j as int, (key, merged)));
                                assert(entries_view(es@) =~= entries_view(es0).update(j as int, (k@, mv)));
                            }
                        },
                        None => {
                            let ghost es0 = es@;
                            let c = v.copy();
                            es.push((k.clone(), c));
                            proof {
                                assert(entries_view(es@) =~= entries_view(es0).push((k@, json_view(v))));
                            }
                        },
                    }
                    i = i + 1;
                }
                proof {
                    assert(oes.subrange(0, os@.len() as int) == oes);
                    lemma_object_view(es);
                }
                JsonValue::Object(es)
            },
            _ => overlay.copy(),
        },
        _ => overlay.copy(),
    }
}

/// Merging keeps every key of the base that the overlay does not name,
/// with its value.
pub proof fn lemma_merge_keeps_base(be: Seq<(Seq<char>, Json)>, oe: Seq<(Seq<char>, Json)>, q: Seq<char>)
    requires
        forall|i: int| 0 <= i < oe.len() ==> (#[trigger] oe[i]).0 != q,
    ensures
        lookup(merge_entries(be, oe), q) == lookup(be, q),
    decreases oe.len(),
{
    if oe.len() > 0 {
        let init = oe.subrange(0, oe.len() - 1);
        assert forall|i: int| 0 <= i < init.len() implies (#[trigger] init[i]).0 != q by {
            assert(init[i] == oe[i]);
        }
        lemma_merge_keeps_base(be, init, q);
        let acc = merge_entries(be, init);
        let k = oe[oe.len() - 1].0;
        let v = oe[oe.len() - 1].1;
        match lookup(acc, k) {
            Some(x) => lemma_lookup_upsert_other(acc, k, merge(x, v), q),
            None => lemma_lookup_upsert_other(acc, k, v, q),
        }
    }
}

/// After merging, every key of the overlay is present.
pub proof fn lemma_merge_has_overlay_keys(be: Seq<(Seq<char>, Json)>, oe: Seq<(Seq<char>, Json)>, i: int)
    requires
        0 <= i < oe.len(),
    ensures
        lookup(merge_entries(be, oe), oe[i].0) is Some,
    decreases oe.len(),
{
    let init = oe.subrange(0, oe.len() - 1);
    let acc = merge_entries(be, init);
    let k = oe[oe.len() - 1].0;
    let v = oe[oe.len() - 1].1;
    if i == oe.len() - 1 {
        match lookup(acc, k) {
            Some(x) => lemma_lookup_upsert_same(acc, k, merge(x, v)),
            None => lemma_lookup_upsert_same(acc, k, v),
        }
    } else {
        lemma_merge_has_overlay_keys(be, init, i);
        assert(init[i] == oe[i]);
        if oe[i].0 == k {
            match lookup(acc, k) {
                Some(x) => lemma_lookup_upsert_same(acc, k, merge(x, v)),
                None => lemma_lookup_upsert_same(acc, k, v),
            }
        } else {
            match lookup(acc, k) {
                Some(x) => lemma_lookup_upsert_other(acc, k, merge(x, v), oe[i].0),
                None => lemma_lookup_upsert_other(acc, k, v, oe[i].0),
            }
        }
    }
}

/// A value that is not an object replaces whatever it is merged into.
pub proof fn lemma_merge_replaces(base: Json, overlay: Json)
    requires
        !(overlay is Object),
    ensures
        merge(base, overlay) == overlay,
{
}

} // verus!
