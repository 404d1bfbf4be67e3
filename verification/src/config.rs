//! Configuration (`%LAST_ROOT%\config.json`): registered buckets in
//! registration order, mirror settings, and dotted-key access.

use vstd::prelude::*;

use crate::dup::Dup;
use crate::error::{LastError, LastErrorV};
use crate::json::{self, JsonValue};
use crate::text;

verus! {

/// Where a registered bucket comes from.
pub enum BucketSource {
    /// A local directory holding the manifests (or a `bucket\` directory
    /// of them).
    Local { path: String },
    /// A ZIP archive, on a local or UNC path or behind an HTTP(S) URL.
    Zip { url: String },
}

/// The mathematical form of [`BucketSource`].
pub enum BucketSourceV {
    Local(Seq<char>),
    Zip(Seq<char>),
}

impl DeepView for BucketSource {
    type V = BucketSourceV;

    open spec fn deep_view(&self) -> BucketSourceV {
        match self {
            BucketSource::Local { path } => BucketSourceV::Local(path@),
            BucketSource::Zip { url } => BucketSourceV::Zip(url@),
        }
    }
}

impl Dup for BucketSource {
    fn dup(&self) -> (r: Self) {
        match self {
            BucketSource::Local { path } => BucketSource::Local { path: path.clone() },
            BucketSource::Zip { url } => BucketSource::Zip { url: url.clone() },
        }
    }
}

/// A registered bucket.
pub struct BucketEntry {
    pub source: BucketSource,
}

impl DeepView for BucketEntry {
    type V = BucketSourceV;

    open spec fn deep_view(&self) -> BucketSourceV {
        self.source.deep_view()
    }
}

impl Dup for BucketEntry {
    fn dup(&self) -> (r: Self) {
        BucketEntry { source: self.source.dup() }
    }
}

/// Settings of `last mirror`.
pub struct MirrorConfig {
    pub binary_share: String,
    pub architectures: Vec<String>,
    pub download_proxy: String,
    pub bucket_path: String,
}

/// The architectures used when none are configured: `64bit`.
pub fn default_architectures() -> (r: Vec<String>)
    ensures
        r.deep_view() == seq!["64bit"@],
{
    let mut r: Vec<String> = Vec::new();
    r.push(String::from_str("64bit"));
    assert(r.deep_view() =~= seq!["64bit"@]);
    r
}

/// The default of flags that are on unless configured off.
pub fn default_true() -> (r: bool)
    ensures
        r,
{
    true
}

impl Default for MirrorConfig {
    fn default() -> (r: Self)
        ensures
            r.binary_share@ == Seq::<char>::empty(),
            r.architectures.deep_view() == seq!["64bit"@],
            r.download_proxy@ == Seq::<char>::empty(),
            r.bucket_path@ == Seq::<char>::empty(),
    {
        MirrorConfig {
            binary_share: String::new(),
            architectures: default_architectures(),
            download_proxy: String::new(),
            bucket_path: String::new(),
        }
    }
}

/// The top-level configuration. `buckets` holds each registered bucket
/// once; `bucket_order` records registration order, which decides lookup
/// priority.
pub struct Config {
    pub architectures: Vec<String>,
    pub download_proxy: String,
    pub powershell_compat: bool,
    pub last_update: Option<String>,
    pub mirror: MirrorConfig,
    pub buckets: Vec<(String, BucketEntry)>,
    pub bucket_order: Vec<String>,
}

impl Default for Config {
    fn default() -> (r: Self)
        ensures
            r.architectures.deep_view() == seq!["64bit"@],
            r.download_proxy@ == Seq::<char>::empty(),
            r.powershell_compat,
            r.last_update is None,
            r.buckets@.len() == 0,
            r.bucket_order@.len() == 0,
            r.wf(),
    {
        Config {
            architectures: default_architectures(),
            download_proxy: String::new(),
            powershell_compat: true,
            last_update: None,
            mirror: MirrorConfig::default(),
            buckets: Vec::new(),
            bucket_order: Vec::new(),
        }
    }
}

/// No two entries share a name.
pub open spec fn unique_names(es: Seq<(String, BucketEntry)>) -> bool {
    forall|i: int, j: int| 0 <= i < j < es.len() ==> es[i].0@ != es[j].0@
}

/// The registered buckets as a map from name to source.
pub open spec fn bucket_map(es: Seq<(String, BucketEntry)>) -> Map<Seq<char>, BucketSourceV>
    decreases es.len(),
{
    if es.len() == 0 {
        Map::empty()
    } else {
        bucket_map(es.drop_last()).insert(es.last().0@, es.last().1.deep_view())
    }
}

/// The buckets of `order` that are registered, with their sources, in
/// that order.
pub open spec fn ordered(order: Seq<Seq<char>>, m: Map<Seq<char>, BucketSourceV>) -> Seq<(Seq<char>, BucketSourceV)>
    decreases order.len(),
{
    if order.len() == 0 {
        Seq::empty()
    } else {
        ordered(order.drop_last(), m) + if m.dom().contains(order.last()) {
            seq![(order.last(), m[order.last()])]
        } else {
            Seq::empty()
        }
    }
}

/// A name is registered exactly when some entry carries it.
pub proof fn lemma_bucket_map_dom(es: Seq<(String, BucketEntry)>, k: Seq<char>)
    ensures
        bucket_map(es).dom().contains(k) <==> exists|i: int| 0 <= i < es.len() && es[i].0@ == k,
    decreases es.len(),
{
    if es.len() > 0 {
        lemma_bucket_map_dom(es.drop_last(), k);
        if bucket_map(es.drop_last()).dom().contains(k) {
            let i = choose|i: int| 0 <= i < es.drop_last().len() && es.drop_last()[i].0@ == k;
            assert(es[i].0@ == k);
        }
        if exists|i: int| 0 <= i < es.len() && es[i].0@ == k {
            let i = choose|i: int| 0 <= i < es.len() && es[i].0@ == k;
            if i < es.len() - 1 {
                assert(es.drop_last()[i].0@ == k);
            }
        }
    }
}

/// With unique names, the map holds each entry's source.
pub proof fn lemma_bucket_map_value(es: Seq<(String, BucketEntry)>, i: int)
    requires
        unique_names(es),
        0 <= i < es.len(),
    ensures
        bucket_map(es).dom().contains(es[i].0@),
        bucket_map(es)[es[i].0@] == es[i].1.deep_view(),
    decreases es.len(),
{
    if i < es.len() - 1 {
        lemma_bucket_map_value(es.drop_last(), i);
        assert(es.drop_last()[i] == es[i]);
    }
}

/// With unique names, removing an entry removes its name from the map.
pub proof fn lemma_bucket_map_remove(es: Seq<(String, BucketEntry)>, i: int)
    requires
        unique_names(es),
        0 <= i < es.len(),
    ensures
        bucket_map(es.remove(i)) == bucket_map(es).remove(es[i].0@),
    decreases es.len(),
{
    let k = es[i].0@;
    if i == es.len() - 1 {
        assert(es.remove(i) == es.drop_last());
        lemma_bucket_map_dom(es.drop_last(), k);
        assert(!bucket_map(es.drop_last()).dom().contains(k));
        assert(bucket_map(es).remove(k) =~= bucket_map(es.drop_last()));
    } else {
        let d = es.drop_last();
        lemma_bucket_map_remove(d, i);
        assert(es.remove(i).drop_last() == d.remove(i));
        assert(es.remove(i).last() == es.last());
        assert(es.last().0@ != k);
        assert(bucket_map(es.remove(i)) =~= bucket_map(es).remove(k));
    }
}

/// `order` without the name `name`, the others keeping their order.
pub open spec fn without_name(order: Seq<Seq<char>>, name: Seq<char>) -> Seq<Seq<char>> {
    order.filter(other_than(name))
}

/// Whether a name differs from `name`.
pub open spec fn other_than(name: Seq<char>) -> spec_fn(Seq<char>) -> bool {
    |n: Seq<char>| n != name
}

impl Config {
    /// Each bucket is registered once.
    pub open spec fn wf(&self) -> bool {
        unique_names(self.buckets@)
    }

    /// The registered buckets, by name.
    pub open spec fn bucket_view(&self) -> Map<Seq<char>, BucketSourceV> {
        bucket_map(self.buckets@)
    }

    /// The registration order, as names.
    pub open spec fn order_view(&self) -> Seq<Seq<char>> {
        self.bucket_order.deep_view()
    }

    /// Every setting but the registered buckets and their order is the
    /// same in `self` and `other`.
    pub open spec fn same_settings(&self, other: &Config) -> bool {
        &&& self.architectures@ == other.architectures@
        &&& self.download_proxy@ == other.download_proxy@
        &&& self.powershell_compat == other.powershell_compat
        &&& self.last_update == other.last_update
        &&& self.mirror == other.mirror
    }

    fn find_bucket(&self, name: &str) -> (r: Option<usize>)
        ensures
            match r {
                Some(i) => i < self.buckets@.len() && self.buckets@[i as int].0@ == name@,
                None => forall|i: int| 0 <= i < self.buckets@.len() ==> self.buckets@[i].0@ != name@,
            },
    {
        let mut i: usize = 0;
        while i < self.buckets.len()
            invariant
                i <= self.buckets@.len(),
                forall|j: int| 0 <= j < i ==> self.buckets@[j].0@ != name@,
            decreases self.buckets@.len() - i,
        {
            if text::str_eq(self.buckets[i].0.as_str(), name) {
                return Some(i);
            }
            i = i + 1;
        }
        None
    }

    /// Registers a bucket; refused if one of that name is registered.
    pub fn add_bucket(&mut self, name: &str, source: BucketSource) -> (r: Result<(), LastError>)
        requires
            old(self).wf(),
        ensures
            final(self).wf(),
            r is Ok <==> !old(self).bucket_view().dom().contains(name@),
            r is Ok ==> final(self).bucket_view() == old(self).bucket_view().insert(name@, source.deep_view())
                && final(self).order_view() == old(self).order_view().push(name@),
            r is Ok ==> final(self).same_settings(old(self)),
            r matches Err(e) ==> e.deep_view() == LastErrorV::BucketAlreadyExists(name@) && *final(self) == *old(self),
    {
        proof {
            lemma_bucket_map_dom(self.buckets@, name@);
        }
        if self.find_bucket(name).is_some() {
            return Err(LastError::BucketAlreadyExists(String::from_str(name)));
        }
        let ghost old_order = self.bucket_order.deep_view();
        let ghost old_es = self.buckets@;
        self.buckets.push((String::from_str(name), BucketEntry { source }));
        self.bucket_order.push(String::from_str(name));
        proof {
            assert(self.buckets@.drop_last() == old_es);
            assert(self.bucket_order.deep_view() =~= old_order.push(name@));
        }
        Ok(())
    }

    /// Unregisters a bucket; refused if none of that name is registered.
    pub fn remove_bucket(&mut self, name: &str) -> (r: Result<(), LastError>)
        requires
            old(self).wf(),
        ensures
            final(self).wf(),
            r is Ok <==> old(self).bucket_view().dom().contains(name@),
            r is Ok ==> final(self).bucket_view() == old(self).bucket_view().remove(name@)
                && final(self).order_view() == without_name(old(self).order_view(), name@),
            r is Ok ==> final(self).same_settings(old(self)),
            r matches Err(e) ==> e.deep_view() == LastErrorV::BucketNotFound(name@) && *final(self) == *old(self),
    {
        proof {
            lemma_bucket_map_dom(self.buckets@, name@);
        }
        let i = match self.find_bucket(name) {
            Some(i) => i,
            None => {
                return Err(LastError::BucketNotFound(String::from_str(name)));
            },
        };
        let ghost old_es = self.buckets@;
        proof {
            lemma_bucket_map_remove(old_es, i as int);
        }
        self.buckets.remove(i);
        let ghost old_order = self.bucket_order.deep_view();
        let mut kept: Vec<String> = Vec::new();
        let mut j: usize = 0;
        while j < self.bucket_order.len()
            invariant
                j <= self.bucket_order@.len(),
                old_order == self.bucket_order.deep_view(),
                kept.deep_view() == without_name(old_order.subrange(0, j as int), name@),
            decreases self.bucket_order@.len() - j,
        {
            proof {
                assert(old_order.subrange(0, j + 1) == old_order.subrange(0, j as int).push(old_order[j as int]));
                old_order.subrange(0, j as int).lemma_filter_push(old_order[j as int], other_than(name@));
                assert(old_order[j as int] == self.bucket_order@[j as int]@);
            }
            if !text::str_eq(self.bucket_order[j].as_str(), name) {
                let ghost before = kept.deep_view();
                kept.push(self.bucket_order[j].clone());
                assert(kept.deep_view() =~= before.push(self.bucket_order@[j as int]@));
            }
            j = j + 1;
        }
        proof {
            assert(old_order.subrange(0, old_order.len() as int) == old_order);
            assert forall|a: int, b: int| 0 <= a < b < self.buckets@.len() implies self.buckets@[a].0@
                != self.buckets@[b].0@ by {
                let a0 = if a < i { a } else { a + 1 };
                let b0 = if b < i { b } else { b + 1 };
                assert(self.buckets@[a] == old_es[a0]);
                assert(self.buckets@[b] == old_es[b0]);
            }
        }
        self.bucket_order = kept;
        Ok(())
    }

    /// The registered buckets in registration order, with their sources.
    pub fn ordered_buckets(&self) -> (r: Vec<(String, BucketEntry)>)
        requires
            self.wf(),
        ensures
            r.deep_view() == ordered(self.order_view(), self.bucket_view()),
    {
        let mut r: Vec<(String, BucketEntry)> = Vec::new();
        let mut j: usize = 0;
        while j < self.bucket_order.len()
            invariant
                self.wf(),
                j <= self.bucket_order@.len(),
                r.deep_view() == ordered(self.order_view().subrange(0, j as int), self.bucket_view()),
            decreases self.bucket_order@.len() - j,
        {
            let ghost o = self.order_view();
            proof {
                assert(o.subrange(0, j + 1).drop_last() == o.subrange(0, j as int));
                lemma_bucket_map_dom(self.buckets@, o[j as int]);
            }
            match self.find_bucket(self.bucket_order[j].as_str()) {
                Some(i) => {
                    proof {
                        lemma_bucket_map_value(self.buckets@, i as int);
                    }
                    let ghost before = r.deep_view();
                    let item = (self.bucket_order[j].clone(), self.buckets[i].1.dup());
                    r.push(item);
                    assert(r.deep_view() =~= before.push((o[j as int], self.bucket_view()[o[j as int]])));
                },
                None => {
                    assert(o.subrange(0, j + 1).last() == o[j as int]);
                },
            }
            j = j + 1;
        }
        proof {
            assert(self.order_view().subrange(0, self.bucket_order@.len() as int) == self.order_view());
        }
        r
    }
}

/// Registering a new bucket and then unregistering it leaves the registry
/// and the registration order as they were.
pub proof fn lemma_add_then_remove(
    m: Map<Seq<char>, BucketSourceV>,
    order: Seq<Seq<char>>,
    name: Seq<char>,
    source: BucketSourceV,
)
    requires
        !m.dom().contains(name),
        !order.contains(name),
    ensures
        m.insert(name, source).remove(name) == m,
        without_name(order.push(name), name) == order,
{
    assert(m.insert(name, source).remove(name) =~= m);
    lemma_filter_keeps_all(order, name);
    order.lemma_filter_push(name, other_than(name));
}

proof fn lemma_filter_keeps_all(order: Seq<Seq<char>>, name: Seq<char>)
    requires
        !order.contains(name),
    ensures
        without_name(order, name) == order,
    decreases order.len(),
{
    reveal_with_fuel(Seq::filter, 1);
    if order.len() > 0 {
        assert(!order.drop_last().contains(name)) by {
            if order.drop_last().contains(name) {
                let i = choose|i: int| 0 <= i < order.drop_last().len() && order.drop_last()[i] == name;
                assert(order[i] == name);
            }
        }
        lemma_filter_keeps_all(order.drop_last(), name);
        assert(order.last() != name) by {
            assert(order[order.len() - 1] == order.last());
        }
        assert(order.drop_last().push(order.last()) == order);
    }
}

/// A newly registered bucket comes last in registration order, after the
/// buckets registered before it, which keep their order.
pub proof fn lemma_add_orders_last(
    m: Map<Seq<char>, BucketSourceV>,
    order: Seq<Seq<char>>,
    name: Seq<char>,
    source: BucketSourceV,
)
    requires
        !m.dom().contains(name),
        !order.contains(name),
    ensures
        ordered(order.push(name), m.insert(name, source)) == ordered(order, m) + seq![(name, source)],
{
    lemma_ordered_unaffected(order, m, name, source);
    assert(order.push(name).drop_last() == order);
}

proof fn lemma_ordered_unaffected(
    order: Seq<Seq<char>>,
    m: Map<Seq<char>, BucketSourceV>,
    name: Seq<char>,
    source: BucketSourceV,
)
    requires
        !order.contains(name),
    ensures
        ordered(order, m.insert(name, source)) == ordered(order, m),
    decreases order.len(),
{
    if order.len() > 0 {
        assert(!order.drop_last().contains(name)) by {
            if order.drop_last().contains(name) {
                let i = choose|i: int| 0 <= i < order.drop_last().len() && order.drop_last()[i] == name;
                assert(order[i] == name);
            }
        }
        lemma_ordered_unaffected(order.drop_last(), m, name, source);
        assert(order.last() != name) by {
            assert(order[order.len() - 1] == order.last());
        }
    }
}

/// The path of `config.json` within `root`.
pub fn config_path(root: &str) -> (r: String)
    ensures
        r@ == crate::path::join(root@, "config.json"@),
{
    crate::path::join_exec(root, "config.json")
}

/// The value at a dotted configuration key, as `last config get` shows it;
/// refused when the key does not lead to a value.
pub fn get_value(root: &JsonValue, key: &str) -> (r: Result<JsonValue, LastError>)
    ensures
        match r {
            Ok(v) => json::get_path(json::json_view(root), json::key_parts(key@)) == Some(json::json_view(&v)),
            Err(e) => json::get_path(json::json_view(root), json::key_parts(key@)) is None && e.deep_view()
                == LastErrorV::UnknownConfigKey(key@),
        },
{
    match json::get_path_exec(root, key) {
        Some(v) => Ok(v),
        None => Err(LastError::UnknownConfigKey(String::from_str(key))),
    }
}

/// The value `last config set` stores for the text `raw`: what `raw`
/// reads as JSON, or else `raw` itself as a string.
pub open spec fn config_text_value(raw: Seq<char>) -> json::Json {
    match json::json_text(raw) {
        Some(p) => p,
        None => json::Json::Str(raw),
    }
}

/// The value `last config set` stores for `raw`.
pub fn config_value(raw: &str) -> (r: JsonValue)
    ensures
        json::json_view(&r) == config_text_value(raw@),
{
    match json::parse_json_text(raw) {
        Some(p) => p,
        None => JsonValue::Str(String::from_str(raw)),
    }
}

/// Setting a dotted configuration key from the text `raw`, and then
/// reading that key, gives back what `raw` reads as JSON, or `raw` itself
/// as a string when it is not JSON.
pub proof fn lemma_config_set_then_get(root: json::Json, key: Seq<char>, raw: Seq<char>)
    ensures
        json::get_path(json::set_path(root, json::key_parts(key), config_text_value(raw)), json::key_parts(key))
            == Some(config_text_value(raw)),
        json::json_text(raw) is None ==> json::get_path(
            json::set_path(root, json::key_parts(key), config_text_value(raw)),
            json::key_parts(key),
        ) == Some(json::Json::Str(raw)),
{
    json::lemma_get_set_same(root, json::key_parts(key), config_text_value(raw));
}

/// Sets the value at a dotted configuration key.
pub fn set_value(root: &mut JsonValue, key: &str, value: JsonValue)
    ensures
        json::json_view(final(root)) == json::set_path(json::json_view(old(root)), json::key_parts(key@), json::json_view(&value)),
        json::get_path(json::json_view(final(root)), json::key_parts(key@)) == Some(json::json_view(&value)),
{
    let ghost before = json::json_view(root);
    json::set_path_exec(root, key, value);
    proof {
        json::lemma_get_set_same(before, json::key_parts(key@), json::json_view(&value));
    }
}

/// Every configuration value with its dotted key, as `last config list`
/// shows them.
pub fn list_values(root: &JsonValue) -> (r: Vec<(String, JsonValue)>)
    ensures
        json::pairs_view(r@) == json::flatten(Seq::empty(), json::json_view(root)),
{
    let mut out: Vec<(String, JsonValue)> = Vec::new();
    json::flatten_exec("", root, &mut out);
    proof {
        reveal_strlit("");
        assert(json::pairs_view(Seq::<(String, JsonValue)>::empty()) =~= Seq::empty());
        assert(""@ =~= Seq::<char>::empty());
    }
    out
}

} // verus!
