//! Buckets: where each registered bucket keeps its manifests, which files
//! of a bucket are packages, and the order in which buckets are searched.
//! Reading directories and fetching ZIP archives is left to the caller.

use vstd::prelude::*;

use crate::config::{ordered, BucketSource, BucketSourceV, Config};
use crate::error::{LastError, LastErrorV};
use crate::path;
use crate::text;

verus! {

/// A source of package manifests.
pub trait Bucket {
    /// The bucket's registered name.
    spec fn name_view(&self) -> Seq<char>;

    /// The directory that holds the manifests, or a `bucket` directory of
    /// them.
    spec fn base_view(&self) -> Seq<char>;

    /// The bucket's registered name.
    fn name(&self) -> (r: &str)
        ensures
            r@ == self.name_view(),
    ;

    /// The directory that holds the manifests, or a `bucket` directory of
    /// them.
    fn base_dir(&self) -> (r: String)
        ensures
            r@ == self.base_view(),
    ;

    /// The `bucket` directory under the base directory.
    fn nested_dir(&self) -> (r: String)
        ensures
            r@ == path::join(self.base_view(), "bucket"@),
    {
        let b = self.base_dir();
        path::join_exec(b.as_str(), "bucket")
    }

    /// The directory of the manifest files: the `bucket` directory when it
    /// is a directory, the base directory otherwise.
    fn manifest_dir(&self, nested_is_dir: bool) -> (r: String)
        ensures
            r@ == if nested_is_dir {
                path::join(self.base_view(), "bucket"@)
            } else {
                self.base_view()
            },
    {
        if nested_is_dir {
            self.nested_dir()
        } else {
            self.base_dir()
        }
    }
}

/// The file of the manifest of `app` in a manifest directory.
pub fn manifest_path(manifest_dir: &str, app: &str) -> (r: String)
    ensures
        r@ == path::join(manifest_dir@, app@ + ".json"@),
{
    let mut f = String::from_str(app);
    f.append(".json");
    path::join_exec(manifest_dir, f.as_str())
}

/// A bucket that is a local directory.
pub struct LocalBucket {
    pub name: String,
    pub path: String,
}

impl LocalBucket {
    pub fn new(name: &str, path: &str) -> (r: LocalBucket)
        ensures
            r.name@ == name@,
            r.path@ == path@,
    {
        LocalBucket { name: String::from_str(name), path: String::from_str(path) }
    }
}

impl Bucket for LocalBucket {
    open spec fn name_view(&self) -> Seq<char> {
        self.name@
    }

    open spec fn base_view(&self) -> Seq<char> {
        self.path@
    }

    fn name(&self) -> (r: &str) {
        self.name.as_str()
    }

    fn base_dir(&self) -> (r: String) {
        self.path.clone()
    }
}

/// A bucket fetched from a ZIP archive into `buckets\<name>` under the
/// LAST root.
pub struct ZipBucket {
    pub name: String,
    /// Where the archive is fetched from: a URL, or a local or UNC path.
    pub source: String,
    pub cache_dir: String,
}

impl ZipBucket {
    pub fn new(name: &str, source: &str, buckets_root: &str) -> (r: ZipBucket)
        ensures
            r.name@ == name@,
            r.source@ == source@,
            r.cache_dir@ == path::join(buckets_root@, name@),
    {
        ZipBucket {
            name: String::from_str(name),
            source: String::from_str(source),
            cache_dir: path::join_exec(buckets_root, name),
        }
    }

    /// Where the fetched archive is kept.
    pub fn archive_path(&self) -> (r: String)
        ensures
            r@ == path::join(self.cache_dir@, "bucket.zip"@),
    {
        path::join_exec(self.cache_dir.as_str(), "bucket.zip")
    }

    /// Where the archive is unpacked.
    pub fn extracted_dir(&self) -> (r: String)
        ensures
            r@ == path::join(self.cache_dir@, "extracted"@),
    {
        path::join_exec(self.cache_dir.as_str(), "extracted")
    }
}

impl Bucket for ZipBucket {
    open spec fn name_view(&self) -> Seq<char> {
        self.name@
    }

    open spec fn base_view(&self) -> Seq<char> {
        path::join(self.cache_dir@, "extracted"@)
    }

    fn name(&self) -> (r: &str) {
        self.name.as_str()
    }

    fn base_dir(&self) -> (r: String) {
        self.extracted_dir()
    }
}

/// A registered bucket of either kind.
pub enum AnyBucket {
    Local(LocalBucket),
    Zip(ZipBucket),
}

impl Bucket for AnyBucket {
    open spec fn name_view(&self) -> Seq<char> {
        match self {
            AnyBucket::Local(b) => b.name_view(),
            AnyBucket::Zip(b) => b.name_view(),
        }
    }

    open spec fn base_view(&self) -> Seq<char> {
        match self {
            AnyBucket::Local(b) => b.base_view(),
            AnyBucket::Zip(b) => b.base_view(),
        }
    }

    fn name(&self) -> (r: &str) {
        match self {
            AnyBucket::Local(b) => b.name(),
            AnyBucket::Zip(b) => b.name(),
        }
    }

    fn base_dir(&self) -> (r: String) {
        match self {
            AnyBucket::Local(b) => b.base_dir(),
            AnyBucket::Zip(b) => b.base_dir(),
        }
    }
}

/// `b` is the bucket registered as `name` with `source`, ZIP buckets
/// cached under `buckets_root`.
pub open spec fn built_from(b: AnyBucket, name: Seq<char>, source: BucketSourceV, buckets_root: Seq<char>) -> bool {
    &&& b.name_view() == name
    &&& match source {
        BucketSourceV::Local(p) => b matches AnyBucket::Local(l) && l.path@ == p,
        BucketSourceV::Zip(u) => b matches AnyBucket::Zip(z) && z.source@ == u && z.cache_dir@ == path::join(
            buckets_root,
            name,
        ),
    }
}

/// The registered buckets, in registration order.
pub struct BucketManager {
    pub buckets: Vec<AnyBucket>,
}

/// The position of the first bucket named `name`.
pub open spec fn bucket_index(bs: Seq<AnyBucket>, name: Seq<char>) -> Option<int>
    decreases bs.len(),
{
    if bs.len() == 0 {
        None
    } else if bs[0].name_view() == name {
        Some(0)
    } else {
        match bucket_index(bs.drop_first(), name) {
            Some(i) => Some(i + 1),
            None => None,
        }
    }
}

/// Where a package is looked up: the buckets (by position) to try in
/// order, and the app name to look for.
pub open spec fn lookup_of(bs: Seq<AnyBucket>, query: Seq<char>) -> Result<(Seq<int>, Seq<char>), LastErrorV> {
    match text::split_once(query, '/') {
        Some((bucket, app)) => match bucket_index(bs, bucket) {
            Some(i) => Ok((seq![i], app)),
            None => Err(LastErrorV::BucketNotFound(bucket)),
        },
        None => Ok((Seq::new(bs.len(), |i: int| i), query)),
    }
}

impl BucketManager {
    /// The buckets registered in `config`, in registration order; ZIP
    /// buckets are cached under `buckets` in the LAST root.
    pub fn load(root: &str, config: &Config) -> (r: BucketManager)
        requires
            config.wf(),
        ensures
            r.buckets@.len() == ordered(config.order_view(), config.bucket_view()).len(),
            forall|i: int|
                0 <= i < r.buckets@.len() ==> built_from(
                    #[trigger] r.buckets@[i],
                    ordered(config.order_view(), config.bucket_view())[i].0,
                    ordered(config.order_view(), config.bucket_view())[i].1,
                    path::join(root@, "buckets"@),
                ),
    {
        let buckets_root = path::join_exec(root, "buckets");
        let entries = config.ordered_buckets();
        let ghost es = ordered(config.order_view(), config.bucket_view());
        let mut buckets: Vec<AnyBucket> = Vec::new();
        let mut i: usize = 0;
        while i < entries.len()
            invariant
                i <= entries@.len(),
                entries.deep_view() == es,
                buckets@.len() == i,
                forall|j: int|
                    0 <= j < i ==> built_from(#[trigger] buckets@[j], es[j].0, es[j].1, buckets_root@),
            decreases entries@.len() - i,
        {
            let (name, entry) = (&entries[i].0, &entries[i].1);
            proof {
                assert(es[i as int] == (name@, entry.deep_view()));
            }
            let b = match &entry.source {
                BucketSource::Local { path } => AnyBucket::Local(LocalBucket::new(name.as_str(), path.as_str())),
                BucketSource::Zip { url } => AnyBucket::Zip(
                    ZipBucket::new(name.as_str(), url.as_str(), buckets_root.as_str()),
                ),
            };
            buckets.push(b);
            i = i + 1;
        }
        BucketManager { buckets }
    }

    /// The first bucket named `name`.
    pub fn get(&self, name: &str) -> (r: Option<&AnyBucket>)
        ensures
            match bucket_index(self.buckets@, name@) {
                Some(i) => r == Some(&self.buckets@[i]),
                None => r is None,
            },
    {
        match self.index_of(name) {
            Some(i) => Some(&self.buckets[i]),
            None => None,
        }
    }

    fn index_of(&self, name: &str) -> (r: Option<usize>)
        ensures
            match r {
                Some(i) => bucket_index(self.buckets@, name@) == Some(i as int) && i < self.buckets@.len(),
                None => bucket_index(self.buckets@, name@) is None,
            },
    {
        let mut i: usize = 0;
        proof {
            assert(self.buckets@.subrange(0, self.buckets@.len() as int) == self.buckets@);
        }
        while i < self.buckets.len()
            invariant
                i <= self.buckets@.len(),
                bucket_index(self.buckets@, name@) == match bucket_index(
                    self.buckets@.subrange(i as int, self.buckets@.len() as int),
                    name@,
                ) {
                    Some(k) => Some(k + i),
                    None => None,
                },
            decreases self.buckets@.len() - i,
        {
            proof {
                let t = self.buckets@.subrange(i as int, self.buckets@.len() as int);
                assert(t.drop_first() == self.buckets@.subrange(i + 1, self.buckets@.len() as int));
                assert(t[0] == self.buckets@[i as int]);
            }
            if text::str_eq(self.buckets[i].name(), name) {
                return Some(i);
            }
            i = i + 1;
        }
        None
    }

    /// Where to look for `query`: `<bucket>/<app>` in that bucket only
    /// (refused, naming the bucket, when it is not registered); a bare app
    /// name in every bucket, in registration order.
    pub fn lookup(&self, query: &str) -> (r: Result<(Vec<usize>, String), LastError>)
        ensures
            match r {
                Ok((order, app)) => lookup_of(self.buckets@, query@) == Ok::<(Seq<int>, Seq<char>), LastErrorV>(
                    (order@.map_values(|i: usize| i as int), app@),
                ),
                Err(e) => lookup_of(self.buckets@, query@) == Err::<(Seq<int>, Seq<char>), LastErrorV>(
                    e.deep_view(),
                ),
            },
    {
        match text::split_once_exec(query, '/') {
            Some((bucket, app)) => match self.index_of(bucket.as_str()) {
                Some(i) => {
                    let mut order: Vec<usize> = Vec::new();
                    order.push(i);
                    proof {
                        assert(order@.map_values(|i: usize| i as int) =~= seq![i as int]);
                    }
                    Ok((order, app))
                },
                None => Err(LastError::BucketNotFound(bucket)),
            },
            None => {
                let mut order: Vec<usize> = Vec::new();
                let mut i: usize = 0;
                while i < self.buckets.len()
                    invariant
                        i <= self.buckets@.len(),
                        order@.len() == i,
                        forall|k: int| 0 <= k < i ==> order@[k] == k,
                    decreases self.buckets@.len() - i,
                {
                    order.push(i);
                    i = i + 1;
                }
                proof {
                    assert(order@.map_values(|i: usize| i as int) =~= Seq::new(self.buckets@.len(), |k: int| k));
                }
                Ok((order, String::from_str(query)))
            },
        }
    }
}

/// The refusal when no bucket provides `query`.
pub fn package_not_found(query: &str) -> (r: LastError)
    ensures
        r.deep_view() == LastErrorV::PackageNotFound(query@),
{
    LastError::PackageNotFound(String::from_str(query))
}

/// The outcome of looking a package up bucket by bucket.
pub enum Found<T, E> {
    /// The `i`-th bucket tried has the manifest.
    Hit(usize, T),
    /// Reading the `i`-th bucket tried failed.
    Failed(usize, E),
    /// No bucket tried has the package.
    NotFound(LastError),
}

/// The reading of the `i`-th bucket tried decides the lookup: it failed
/// or found the manifest, and every bucket before it had no manifest.
pub open spec fn decides<T, E>(results: Seq<Result<Option<T>, E>>, i: int) -> bool {
    &&& 0 <= i < results.len()
    &&& !(results[i] matches Ok(None))
    &&& forall|j: int| 0 <= j < i ==> #[trigger] results[j] matches Ok(None)
}

/// The outcome of a lookup from the readings of the buckets tried, in
/// order: the first bucket that has the manifest wins, a failed reading
/// before any such bucket is passed on, and when every bucket tried lacks
/// the manifest the package is not found.
pub fn first_found<T, E>(results: Vec<Result<Option<T>, E>>, query: &str) -> (r: Found<T, E>)
    ensures
        match r {
            Found::Hit(i, m) => decides(results@, i as int) && results@[i as int] == Ok::<Option<T>, E>(Some(m)),
            Found::Failed(i, e) => decides(results@, i as int) && results@[i as int] == Err::<Option<T>, E>(e),
            Found::NotFound(e) => (forall|j: int| 0 <= j < results@.len() ==> #[trigger] results@[j] matches Ok(None))
                && e.deep_view() == LastErrorV::PackageNotFound(query@),
        },
{
    let ghost orig = results@;
    let n = results.len();
    let mut rest = results;
    let mut i: usize = 0;
    while rest.len() > 0
        invariant
            orig == results@,
            n == orig.len(),
            i + rest@.len() == orig.len(),
            rest@ == orig.subrange(i as int, orig.len() as int),
            forall|j: int| 0 <= j < i ==> #[trigger] orig[j] matches Ok(None),
        decreases rest@.len(),
    {
        let x = rest.remove(0);
        proof {
            assert(x == orig[i as int]);
            assert(rest@ == orig.subrange(i + 1, orig.len() as int));
        }
        match x {
            Ok(Some(m)) => {
                return Found::Hit(i, m);
            },
            Err(e) => {
                return Found::Failed(i, e);
            },
            Ok(None) => {},
        }
        i = i + 1;
    }
    Found::NotFound(package_not_found(query))
}

/// The package a file of a bucket directory provides: a `.json` file other
/// than `last-bucket.json` (in any case) provides the package named by its
/// stem.
pub open spec fn app_of_file(name: Seq<char>) -> Option<Seq<char>> {
    if path::extension_of(name) == Some("json"@) && !text::eq_ignore_case(path::stem_of(name), "last-bucket"@) {
        Some(path::stem_of(name))
    } else {
        None
    }
}

/// The packages provided by a bucket directory with these files, in
/// directory order.
pub open spec fn apps_of(names: Seq<Seq<char>>) -> Seq<Seq<char>>
    decreases names.len(),
{
    if names.len() == 0 {
        Seq::empty()
    } else {
        let rest = apps_of(names.drop_last());
        match app_of_file(names.last()) {
            Some(a) => rest.push(a),
            None => rest,
        }
    }
}

fn app_of_file_exec(name: &str) -> (r: Option<String>)
    ensures
        r.deep_view() == app_of_file(name@),
{
    proof {
        reveal_strlit("json");
        reveal_strlit("last-bucket");
    }
    let v = text::to_chars(name);
    if v.len() == 2 && v[0] == '.' && v[1] == '.' {
        proof {
            assert(v@ =~= seq!['.', '.']);
            assert(seq!['.', '.'] != "json"@);
        }
        return None;
    }
    let mut k: usize = v.len();
    while k > 0 && v[k - 1] != '.'
        invariant
            k <= v@.len(),
            forall|j: int| k <= j < v@.len() ==> v@[j] != '.',
        decreases k,
    {
        k = k - 1;
    }
    proof {
        crate::path::lemma_last_dot(v@, k - 1);
        if v@ == seq!['.', '.'] {
            assert(v@.len() == 2 && v@[0] == '.' && v@[1] == '.');
        }
    }
    if k <= 1 {
        return None;
    }
    let ext = text::string_of_range(&v, k, v.len());
    if !text::str_eq(ext.as_str(), "json") {
        return None;
    }
    let stem = text::string_of_range(&v, 0, k - 1);
    if text::eq_ignore_case_exec(stem.as_str(), "last-bucket") {
        return None;
    }
    Some(stem)
}

/// The packages a bucket directory with these file names provides, sorted.
pub fn list_apps(file_names: &Vec<String>) -> (r: Vec<String>)
    ensures
        r@.map_values(|s: String| s@).to_multiset() == apps_of(text::views(file_names@)).to_multiset(),
        text::sorted_by_name(r@),
{
    let ghost names = text::views(file_names@);
    let mut apps: Vec<String> = Vec::new();
    let mut i: usize = 0;
    while i < file_names.len()
        invariant
            i <= file_names@.len(),
            names == text::views(file_names@),
            text::views(apps@) == apps_of(names.subrange(0, i as int)),
        decreases file_names@.len() - i,
    {
        proof {
            assert(names.subrange(0, i + 1).drop_last() == names.subrange(0, i as int));
        }
        match app_of_file_exec(file_names[i].as_str()) {
            Some(a) => {
                let ghost before = apps@;
                apps.push(a);
                proof {
                    assert(text::views(apps@) =~= text::views(before).push(apps@.last()@));
                }
            },
            None => {},
        }
        i = i + 1;
    }
    proof {
        assert(names.subrange(0, names.len() as int) == names);
    }
    let ghost unsorted = apps@;
    let r = text::sort_by_name(apps);
    proof {
        text::lemma_map_multiset(r@, unsorted, |s: String| s@);
        assert(r@.map_values(|s: String| s@) == text::views(r@));
        assert(unsorted.map_values(|s: String| s@) == text::views(unsorted));
    }
    r
}

/// A package matches a search when its name contains the query, both
/// compared in ASCII lower case.
pub fn search_matches(app: &str, query: &str) -> (r: bool)
    ensures
        r == text::contains(text::lower(app@), text::lower(query@)),
{
    let a = text::lower_exec(app);
    let q = text::lower_exec(query);
    text::contains_exec(a.as_str(), q.as_str())
}

/// A bucket source is a ZIP archive when it ends in `.zip` (in any case),
/// a local directory otherwise.
pub fn detect_bucket_source(source: &str) -> (r: BucketSource)
    ensures
        text::ends_with(text::lower(source@), ".zip"@) ==> r.deep_view() == BucketSourceV::Zip(source@),
        !text::ends_with(text::lower(source@), ".zip"@) ==> r.deep_view() == BucketSourceV::Local(source@),
{
    let l = text::lower_exec(source);
    if text::ends_with_exec(l.as_str(), ".zip") {
        BucketSource::Zip { url: String::from_str(source) }
    } else {
        BucketSource::Local { path: String::from_str(source) }
    }
}

/// A package named without a bucket is looked for in every registered
/// bucket, in registration order.
pub proof fn lemma_bare_name_in_registration_order(bs: Seq<AnyBucket>, query: Seq<char>)
    requires
        text::index_of(query, '/') is None,
    ensures
        lookup_of(bs, query) matches Ok((order, app)) && app == query && order.len() == bs.len() && forall|i: int|
            0 <= i < bs.len() ==> order[i] == i,
{
}

} // verus!
