//! Scoop-compatible manifests and their resolution for one architecture.
//!
//! A manifest's fields may hold a single value or a list, and any
//! architecture block may override the root-level defaults.
//! [`Manifest::resolved`] merges both into one [`ResolvedManifest`].

use vstd::prelude::*;

use crate::dup::Dup;
use crate::error::LastError;
use crate::json::JsonValue;
use crate::text;

verus! {

/// A value written either as a single item or as an array in JSON.
pub enum OneOrMany<T> {
    One(T),
    Many(Vec<T>),
}

/// The mathematical form of [`OneOrMany`].
pub enum OneOrManyV<V> {
    One(V),
    Many(Seq<V>),
}

impl<V> OneOrManyV<V> {
    /// The items, in order.
    pub open spec fn items(self) -> Seq<V> {
        match self {
            OneOrManyV::One(v) => seq![v],
            OneOrManyV::Many(s) => s,
        }
    }
}

impl<T: DeepView> DeepView for OneOrMany<T> {
    type V = OneOrManyV<T::V>;

    open spec fn deep_view(&self) -> OneOrManyV<T::V> {
        match self {
            OneOrMany::One(v) => OneOrManyV::One(v.deep_view()),
            OneOrMany::Many(v) => OneOrManyV::Many(v.deep_view()),
        }
    }
}

impl<T: Dup> Dup for OneOrMany<T> {
    fn dup(&self) -> (r: Self) {
        match self {
            OneOrMany::One(v) => OneOrMany::One(v.dup()),
            OneOrMany::Many(v) => OneOrMany::Many(v.dup()),
        }
    }
}

impl<T: Dup> OneOrMany<T> {
    /// The items as a list.
    pub fn to_vec(&self) -> (r: Vec<T>)
        ensures
            r.deep_view() == self.deep_view().items(),
    {
        match self {
            OneOrMany::One(v) => {
                let mut out: Vec<T> = Vec::new();
                out.push(v.dup());
                assert(out.deep_view() =~= self.deep_view().items());
                out
            },
            OneOrMany::Many(v) => v.dup(),
        }
    }
}

/// A `bin` entry: a bare executable, or `[exe, alias, args...]`.
pub enum BinEntry {
    Simple(String),
    WithArgs(Vec<String>),
}

/// The mathematical form of [`BinEntry`].
pub enum BinEntryV {
    Simple(Seq<char>),
    WithArgs(Seq<Seq<char>>),
}

impl DeepView for BinEntry {
    type V = BinEntryV;

    open spec fn deep_view(&self) -> BinEntryV {
        match self {
            BinEntry::Simple(s) => BinEntryV::Simple(s@),
            BinEntry::WithArgs(v) => BinEntryV::WithArgs(v.deep_view()),
        }
    }
}

impl Dup for BinEntry {
    fn dup(&self) -> (r: Self) {
        match self {
            BinEntry::Simple(s) => BinEntry::Simple(s.dup()),
            BinEntry::WithArgs(v) => BinEntry::WithArgs(v.dup()),
        }
    }
}

impl BinEntryV {
    /// The executable path, relative to the install directory (empty for
    /// an empty array).
    pub open spec fn exe(self) -> Seq<char> {
        match self {
            BinEntryV::Simple(s) => s,
            BinEntryV::WithArgs(v) => if v.len() > 0 { v[0] } else { Seq::empty() },
        }
    }

    /// The shim name given in the entry, if any.
    pub open spec fn alias(self) -> Option<Seq<char>> {
        match self {
            BinEntryV::Simple(_) => None,
            BinEntryV::WithArgs(v) => if v.len() > 1 { Some(v[1]) } else { None },
        }
    }

    /// The fixed arguments passed on by the shim.
    pub open spec fn extra_args(self) -> Seq<Seq<char>> {
        match self {
            BinEntryV::Simple(_) => Seq::empty(),
            BinEntryV::WithArgs(v) => if v.len() > 2 { v.subrange(2, v.len() as int) } else { Seq::empty() },
        }
    }
}

impl BinEntry {
    /// The path to the executable, relative to the install directory.
    pub fn exe(&self) -> (r: &str)
        ensures
            r@ == self.deep_view().exe(),
    {
        match self {
            BinEntry::Simple(s) => s.as_str(),
            BinEntry::WithArgs(v) => {
                if v.len() > 0 {
                    v[0].as_str()
                } else {
                    proof {
                        reveal_strlit("");
                    }
                    ""
                }
            },
        }
    }

    /// The shim name, when the entry gives one.
    pub fn alias(&self) -> (r: Option<&str>)
        ensures
            match r {
                Some(a) => self.deep_view().alias() == Some(a@),
                None => self.deep_view().alias() is None,
            },
    {
        match self {
            BinEntry::Simple(_) => None,
            BinEntry::WithArgs(v) => {
                if v.len() > 1 {
                    Some(v[1].as_str())
                } else {
                    None
                }
            },
        }
    }

    /// Additional fixed arguments always passed to the shim.
    pub fn extra_args(&self) -> (r: Vec<String>)
        ensures
            r.deep_view() == self.deep_view().extra_args(),
    {
        match self {
            BinEntry::Simple(_) => {
                let r: Vec<String> = Vec::new();
                assert(r.deep_view() =~= Seq::<Seq<char>>::empty());
                r
            },
            BinEntry::WithArgs(v) => {
                let mut r: Vec<String> = Vec::new();
                if v.len() > 2 {
                    let mut i: usize = 2;
                    while i < v.len()
                        invariant
                            2 <= i <= v@.len(),
                            r.deep_view() =~= v.deep_view().subrange(2, i as int),
                        decreases v@.len() - i,
                    {
                        let ghost before = r.deep_view();
                        r.push(v[i].clone());
                        assert(r.deep_view() =~= before.push(v@[i as int]@));
                        i = i + 1;
                    }
                } else {
                    assert(r.deep_view() =~= Seq::<Seq<char>>::empty());
                }
                r
            },
        }
    }
}

/// The `license` field: an SPDX identifier, or an identifier with a URL.
pub enum License {
    Simple(String),
    Detailed { identifier: String, url: Option<String> },
}

/// The mathematical form of [`License`].
pub enum LicenseV {
    Simple(Seq<char>),
    Detailed { identifier: Seq<char>, url: Option<Seq<char>> },
}

impl DeepView for License {
    type V = LicenseV;

    open spec fn deep_view(&self) -> LicenseV {
        match self {
            License::Simple(s) => LicenseV::Simple(s@),
            License::Detailed { identifier, url } => LicenseV::Detailed {
                identifier: identifier@,
                url: url.deep_view(),
            },
        }
    }
}

impl Dup for License {
    fn dup(&self) -> (r: Self) {
        match self {
            License::Simple(s) => License::Simple(s.dup()),
            License::Detailed { identifier, url } => License::Detailed {
                identifier: identifier.dup(),
                url: url.dup(),
            },
        }
    }
}

/// A script field: inline source (one string or lines), or a script file
/// next to the manifest.
pub enum ScriptField {
    Inline(OneOrMany<String>),
    File { script_file: String },
}

/// The mathematical form of [`ScriptField`].
pub enum ScriptFieldV {
    Inline(OneOrManyV<Seq<char>>),
    File(Seq<char>),
}

impl DeepView for ScriptField {
    type V = ScriptFieldV;

    open spec fn deep_view(&self) -> ScriptFieldV {
        match self {
            ScriptField::Inline(lines) => ScriptFieldV::Inline(lines.deep_view()),
            ScriptField::File { script_file } => ScriptFieldV::File(script_file@),
        }
    }
}

impl Dup for ScriptField {
    fn dup(&self) -> (r: Self) {
        match self {
            ScriptField::Inline(lines) => ScriptField::Inline(lines.dup()),
            ScriptField::File { script_file } => ScriptField::File { script_file: script_file.dup() },
        }
    }
}

/// Where the text of a script comes from.
pub enum ScriptSource {
    /// The script's source text.
    Text(String),
    /// A script file to read, relative paths taken from the bucket's
    /// manifest directory.
    File(String),
}

impl ScriptField {
    /// Resolves the script: inline lines are joined with newlines; a
    /// script file is named by its path inside `base_dir`.
    pub fn resolve(&self, base_dir: &str) -> (r: ScriptSource)
        ensures
            match self.deep_view() {
                ScriptFieldV::Inline(lines) => r matches ScriptSource::Text(t) && t@ == text::join(
                    lines.items(),
                    seq!['\n'],
                ),
                ScriptFieldV::File(f) => r matches ScriptSource::File(p) && p@ == crate::path::join(base_dir@, f),
            },
    {
        match self {
            ScriptField::Inline(lines) => {
                let v = lines.to_vec();
                proof {
                    reveal_strlit("\n");
                    assert("\n"@ =~= seq!['\n']);
                    assert(text::views(v@) =~= v.deep_view());
                }
                ScriptSource::Text(text::join_exec(&v, "\n"))
            },
            ScriptField::File { script_file } => ScriptSource::File(crate::path::join_exec(base_dir, script_file.as_str())),
        }
    }
}

/// The `installer` / `uninstaller` field.
pub struct InstallerField {
    pub file: Option<String>,
    pub script: Option<ScriptField>,
    pub args: Option<OneOrMany<String>>,
    pub keep: bool,
}

/// The mathematical form of [`InstallerField`].
pub struct InstallerFieldV {
    pub file: Option<Seq<char>>,
    pub script: Option<ScriptFieldV>,
    pub args: Option<OneOrManyV<Seq<char>>>,
    pub keep: bool,
}

impl DeepView for InstallerField {
    type V = InstallerFieldV;

    open spec fn deep_view(&self) -> InstallerFieldV {
        InstallerFieldV {
            file: self.file.deep_view(),
            script: self.script.deep_view(),
            args: self.args.deep_view(),
            keep: self.keep,
        }
    }
}

impl Dup for InstallerField {
    fn dup(&self) -> (r: Self) {
        InstallerField {
            file: self.file.dup(),
            script: self.script.dup(),
            args: self.args.dup(),
            keep: self.keep,
        }
    }
}

/// The fields an `architecture` block may override.
pub struct ArchManifest {
    pub url: Option<OneOrMany<String>>,
    pub hash: Option<OneOrMany<String>>,
    pub bin: Option<OneOrMany<BinEntry>>,
    pub extract_dir: Option<OneOrMany<String>>,
    pub extract_to: Option<OneOrMany<String>>,
    pub env_add_path: Option<OneOrMany<String>>,
    pub env_set: Option<Vec<(String, String)>>,
    pub pre_install: Option<ScriptField>,
    pub post_install: Option<ScriptField>,
    pub pre_uninstall: Option<ScriptField>,
    pub post_uninstall: Option<ScriptField>,
    pub installer: Option<InstallerField>,
    pub uninstaller: Option<InstallerField>,
}

impl ArchManifest {
    /// A block that overrides nothing.
    pub fn empty() -> (r: ArchManifest)
        ensures
            r.url is None && r.hash is None && r.bin is None && r.extract_dir is None && r.extract_to is None
                && r.env_add_path is None && r.env_set is None && r.pre_install is None && r.post_install is None
                && r.pre_uninstall is None && r.post_uninstall is None && r.installer is None
                && r.uninstaller is None,
    {
        ArchManifest {
            url: None,
            hash: None,
            bin: None,
            extract_dir: None,
            extract_to: None,
            env_add_path: None,
            env_set: None,
            pre_install: None,
            post_install: None,
            pre_uninstall: None,
            post_uninstall: None,
            installer: None,
            uninstaller: None,
        }
    }

    /// A copy of the block.
    pub fn dup_block(&self) -> (r: ArchManifest)
        ensures
            r.url.deep_view() == self.url.deep_view(),
            r.hash.deep_view() == self.hash.deep_view(),
            r.bin.deep_view() == self.bin.deep_view(),
            r.extract_dir.deep_view() == self.extract_dir.deep_view(),
            r.extract_to.deep_view() == self.extract_to.deep_view(),
            r.env_add_path.deep_view() == self.env_add_path.deep_view(),
            r.env_set.deep_view() == self.env_set.deep_view(),
            r.pre_install.deep_view() == self.pre_install.deep_view(),
            r.post_install.deep_view() == self.post_install.deep_view(),
            r.pre_uninstall.deep_view() == self.pre_uninstall.deep_view(),
            r.post_uninstall.deep_view() == self.post_uninstall.deep_view(),
            r.installer.deep_view() == self.installer.deep_view(),
            r.uninstaller.deep_view() == self.uninstaller.deep_view(),
    {
        ArchManifest {
            url: self.url.dup(),
            hash: self.hash.dup(),
            bin: self.bin.dup(),
            extract_dir: self.extract_dir.dup(),
            extract_to: self.extract_to.dup(),
            env_add_path: self.env_add_path.dup(),
            env_set: self.env_set.dup(),
            pre_install: self.pre_install.dup(),
            post_install: self.post_install.dup(),
            pre_uninstall: self.pre_uninstall.dup(),
            post_uninstall: self.post_uninstall.dup(),
            installer: self.installer.dup(),
            uninstaller: self.uninstaller.dup(),
        }
    }
}

/// A Scoop-compatible package manifest. `extra` keeps the fields the
/// package manager ignores (`autoupdate`, `checkver`, ...), with their
/// values, so that a rewritten manifest can carry them on.
pub struct Manifest {
    /// The app name, taken from the manifest's file name.
    pub name: String,
    pub version: String,
    pub description: Option<String>,
    pub homepage: Option<String>,
    pub license: Option<License>,
    pub url: Option<OneOrMany<String>>,
    pub hash: Option<OneOrMany<String>>,
    pub extract_dir: Option<OneOrMany<String>>,
    pub extract_to: Option<OneOrMany<String>>,
    pub bin: Option<OneOrMany<BinEntry>>,
    pub shortcuts: Option<Vec<Vec<String>>>,
    pub persist: Option<OneOrMany<String>>,
    pub env_set: Option<Vec<(String, String)>>,
    pub env_add_path: Option<OneOrMany<String>>,
    pub depends: Option<OneOrMany<String>>,
    pub suggest: Option<Vec<(String, Vec<String>)>>,
    pub architecture: Option<Vec<(String, ArchManifest)>>,
    pub installer: Option<InstallerField>,
    pub uninstaller: Option<InstallerField>,
    pub pre_install: Option<ScriptField>,
    pub post_install: Option<ScriptField>,
    pub pre_uninstall: Option<ScriptField>,
    pub post_uninstall: Option<ScriptField>,
    pub notes: Option<OneOrMany<String>>,
    pub extra: Vec<(String, JsonValue)>,
}

/// No two entries of `es` share a key.
pub open spec fn distinct_keys<V>(es: Seq<(String, V)>) -> bool {
    forall|i: int, j: int| 0 <= i < j < es.len() ==> es[i].0@ != es[j].0@
}

/// Filtering entries keeps only entries of `s`, and keeps keys distinct.
pub proof fn lemma_filter_distinct_keys<V>(s: Seq<(String, V)>, p: spec_fn((String, V)) -> bool)
    ensures
        forall|i: int| 0 <= i < s.filter(p).len() ==> exists|k: int| 0 <= k < s.len() && s[k] == #[trigger] s.filter(p)[i],
        distinct_keys(s) ==> distinct_keys(s.filter(p)),
    decreases s.len(),
{
    reveal_with_fuel(Seq::filter, 1);
    if s.len() > 0 {
        let d = s.drop_last();
        lemma_filter_distinct_keys(d, p);
        let f = d.filter(p);
        assert forall|i: int| 0 <= i < f.len() implies exists|k: int| 0 <= k < s.len() - 1 && s[k] == #[trigger] f[i] by {
            let k = choose|k: int| 0 <= k < d.len() && d[k] == f[i];
            assert(s[k] == d[k]);
        }
        let r = s.filter(p);
        assert forall|i: int| 0 <= i < r.len() implies exists|k: int| 0 <= k < s.len() && s[k] == #[trigger] r[i] by {
            if i < f.len() {
                assert(r[i] == f[i]);
                let k = choose|k: int| 0 <= k < s.len() - 1 && s[k] == f[i];
                assert(s[k] == r[i]);
            } else {
                assert(s[s.len() - 1] == r[i]);
            }
        }
        if distinct_keys(s) {
            assert(distinct_keys(d)) by {
                assert forall|i: int, j: int| 0 <= i < j < d.len() implies d[i].0@ != d[j].0@ by {
                    assert(d[i] == s[i] && d[j] == s[j]);
                }
            }
            assert forall|i: int, j: int| 0 <= i < j < r.len() implies r[i].0@ != r[j].0@ by {
                if j < f.len() {
                    assert(r[i] == f[i] && r[j] == f[j]);
                } else {
                    assert(r[i] == f[i]);
                    let k = choose|k: int| 0 <= k < s.len() - 1 && s[k] == f[i];
                    assert(r[j] == s[s.len() - 1]);
                }
            }
        }
    }
}

impl Manifest {
    /// No name, no version, and no field set.
    pub open spec fn blank(&self) -> bool {
        &&& self.name@.len() == 0
        &&& self.version@.len() == 0
        &&& self.description is None && self.homepage is None && self.license is None
        &&& self.url is None && self.hash is None
        &&& self.extract_dir is None && self.extract_to is None && self.bin is None && self.shortcuts is None
        &&& self.persist is None && self.env_set is None && self.env_add_path is None && self.depends is None
        &&& self.suggest is None && self.architecture is None && self.installer is None && self.uninstaller is None
        &&& self.pre_install is None && self.post_install is None && self.pre_uninstall is None
        &&& self.post_uninstall is None
        &&& self.notes is None
        &&& self.extra@.len() == 0
    }

    /// Each key of the `architecture`, `env_set` and `extra` maps occurs
    /// once, as in the JSON objects they are read from.
    pub open spec fn wf(&self) -> bool {
        &&& (self.architecture matches Some(v) ==> distinct_keys(v@))
        &&& (self.env_set matches Some(v) ==> distinct_keys(v@))
        &&& distinct_keys(self.extra@)
    }
}

impl Default for Manifest {
    /// A manifest with no name, no version and no fields.
    fn default() -> (r: Manifest)
        ensures
            r.blank(),
            r.wf(),
    {
        Manifest {
            name: String::new(),
            version: String::new(),
            description: None,
            homepage: None,
            license: None,
            url: None,
            hash: None,
            extract_dir: None,
            extract_to: None,
            bin: None,
            shortcuts: None,
            persist: None,
            env_set: None,
            env_add_path: None,
            depends: None,
            suggest: None,
            architecture: None,
            installer: None,
            uninstaller: None,
            pre_install: None,
            post_install: None,
            pre_uninstall: None,
            post_uninstall: None,
            notes: None,
            extra: Vec::new(),
        }
    }
}

/// Target CPU architecture.
#[derive(Debug, Clone, Copy, PartialEq, Eq, Hash, Structural)]
pub enum Architecture {
    X64,
    X86,
    Arm64,
}

/// The key of an architecture in manifests and on the command line.
pub open spec fn arch_key(a: Architecture) -> Seq<char> {
    match a {
        Architecture::X64 => "64bit"@,
        Architecture::X86 => "32bit"@,
        Architecture::Arm64 => "arm64"@,
    }
}

impl Architecture {
    /// The architecture key as used in `architecture` blocks and `--arch`.
    pub fn key(&self) -> (r: &'static str)
        ensures
            r@ == arch_key(*self),
    {
        match self {
            Architecture::X64 => "64bit",
            Architecture::X86 => "32bit",
            Architecture::Arm64 => "arm64",
        }
    }

    /// Parses an architecture key; any other text is refused.
    pub fn parse(s: &str) -> (r: Result<Architecture, LastError>)
        ensures
            match r {
                Ok(a) => arch_key(a) == s@,
                Err(e) => (forall|a: Architecture| arch_key(a) != s@) && e.deep_view() == crate::error::LastErrorV::UnknownArchitecture(s@),
            },
    {
        proof {
            reveal_strlit("64bit");
            reveal_strlit("32bit");
            reveal_strlit("arm64");
        }
        if text::str_eq(s, "64bit") {
            Ok(Architecture::X64)
        } else if text::str_eq(s, "32bit") {
            Ok(Architecture::X86)
        } else if text::str_eq(s, "arm64") {
            Ok(Architecture::Arm64)
        } else {
            Err(LastError::UnknownArchitecture(String::from_str(s)))
        }
    }

    /// The architecture of a host, from Rust's name for its CPU
    /// architecture (`std::env::consts::ARCH`); unknown ones count as 64-bit.
    pub fn from_host(cpu: &str) -> (r: Architecture)
        ensures
            cpu@ == "x86"@ ==> r == Architecture::X86,
            cpu@ == "aarch64"@ ==> r == Architecture::Arm64,
            cpu@ != "x86"@ && cpu@ != "aarch64"@ ==> r == Architecture::X64,
    {
        proof {
            reveal_strlit("x86");
            reveal_strlit("aarch64");
            assert("x86"@.len() != "aarch64"@.len());
        }
        if text::str_eq(cpu, "x86") {
            Architecture::X86
        } else if text::str_eq(cpu, "aarch64") {
            Architecture::Arm64
        } else {
            Architecture::X64
        }
    }
}


/// `s` without its leading `c`s, as `str::trim_start_matches`.
pub open spec fn strip_leading(s: Seq<char>, c: char) -> Seq<char>
    decreases s.len(),
{
    if s.len() > 0 && s[0] == c {
        strip_leading(s.drop_first(), c)
    } else {
        s
    }
}

proof fn lemma_strip_leading_from(s: Seq<char>, c: char, k: int)
    requires
        0 <= k <= s.len(),
        forall|j: int| 0 <= j < k ==> s[j] == c,
    ensures
        strip_leading(s, c) == strip_leading(s.subrange(k, s.len() as int), c),
    decreases k,
{
    if k > 0 {
        lemma_strip_leading_from(s.drop_first(), c, k - 1);
        assert(s.drop_first().subrange(k - 1, s.drop_first().len() as int) == s.subrange(k, s.len() as int));
    } else {
        assert(s.subrange(0, s.len() as int) == s);
    }
}

/// The mathematical form of a [`DownloadUrl`].
pub struct DownloadUrlV {
    pub url: Seq<char>,
    pub rename_to: Option<Seq<char>>,
}

/// A manifest URL with the Scoop rename trick (`url#/name.ext`) resolved:
/// a `#` fragment that starts with `/` names the downloaded file.
pub open spec fn parse_download(raw: Seq<char>) -> DownloadUrlV {
    match text::split_once(raw, '#') {
        Some((u, frag)) => if frag.len() > 0 && frag[0] == '/' {
            DownloadUrlV { url: u, rename_to: Some(strip_leading(frag, '/')) }
        } else {
            DownloadUrlV { url: raw, rename_to: None }
        },
        None => DownloadUrlV { url: raw, rename_to: None },
    }
}

/// The name of a downloaded file: the renamed one, else the last segment
/// of the URL, else `download`.
pub open spec fn download_file_name(d: DownloadUrlV) -> Seq<char> {
    match d.rename_to {
        Some(n) => n,
        None => {
            let seg = crate::path::last_segment(d.url);
            if seg.len() > 0 {
                seg
            } else {
                "download"@
            }
        },
    }
}

/// One download entry, after resolving the rename trick.
pub struct DownloadUrl {
    pub url: String,
    pub rename_to: Option<String>,
}

impl DeepView for DownloadUrl {
    type V = DownloadUrlV;

    open spec fn deep_view(&self) -> DownloadUrlV {
        DownloadUrlV { url: self.url@, rename_to: self.rename_to.deep_view() }
    }
}

impl Dup for DownloadUrl {
    fn dup(&self) -> (r: Self) {
        DownloadUrl { url: self.url.dup(), rename_to: self.rename_to.dup() }
    }
}

impl DownloadUrl {
    /// Resolves a manifest URL.
    pub fn parse(raw: &str) -> (r: DownloadUrl)
        ensures
            r.deep_view() == parse_download(raw@),
    {
        match text::split_once_exec(raw, '#') {
            Some((u, frag)) => {
                let v = text::to_chars(frag.as_str());
                if v.len() > 0 && v[0] == '/' {
                    let mut k: usize = 0;
                    while k < v.len() && v[k] == '/'
                        invariant
                            k <= v@.len(),
                            forall|j: int| 0 <= j < k ==> v@[j] == '/',
                        decreases v@.len() - k,
                    {
                        k = k + 1;
                    }
                    proof {
                        lemma_strip_leading_from(v@, '/', k as int);
                        let t = v@.subrange(k as int, v@.len() as int);
                        assert(t.len() == 0 || t[0] != '/');
                    }
                    let name = text::string_of_range(&v, k, v.len());
                    DownloadUrl { url: u, rename_to: Some(name) }
                } else {
                    DownloadUrl { url: String::from_str(raw), rename_to: None }
                }
            },
            None => DownloadUrl { url: String::from_str(raw), rename_to: None },
        }
    }

    /// The file name for the downloaded artifact.
    pub fn file_name(&self) -> (r: String)
        ensures
            r@ == download_file_name(self.deep_view()),
    {
        match &self.rename_to {
            Some(n) => n.clone(),
            None => {
                let seg = crate::path::last_segment_exec(self.url.as_str());
                if seg.unicode_len() == 0 {
                    proof {
                        reveal_strlit("download");
                    }
                    String::from_str("download")
                } else {
                    seg
                }
            },
        }
    }
}

/// One download to perform: the URL and, if the manifest gives one, the
/// expected hash.
pub struct ResolvedDownload {
    pub download: DownloadUrl,
    pub hash: Option<String>,
}

/// The mathematical form of a [`ResolvedDownload`].
pub struct ResolvedDownloadV {
    pub download: DownloadUrlV,
    pub hash: Option<Seq<char>>,
}

impl DeepView for ResolvedDownload {
    type V = ResolvedDownloadV;

    open spec fn deep_view(&self) -> ResolvedDownloadV {
        ResolvedDownloadV { download: self.download.deep_view(), hash: self.hash.deep_view() }
    }
}

impl Dup for ResolvedDownload {
    fn dup(&self) -> (r: Self) {
        ResolvedDownload { download: self.download.dup(), hash: self.hash.dup() }
    }
}

/// A manifest with every field resolved for one architecture: the
/// architecture block's value where it gives one, the root value
/// otherwise.
pub struct ResolvedManifest {
    pub downloads: Vec<ResolvedDownload>,
    pub extract_dir: Option<String>,
    pub extract_to: Option<String>,
    pub bin: Vec<BinEntry>,
    pub env_add_path: Vec<String>,
    pub env_set: Vec<(String, String)>,
    pub pre_install: Option<ScriptField>,
    pub post_install: Option<ScriptField>,
    pub pre_uninstall: Option<ScriptField>,
    pub post_uninstall: Option<ScriptField>,
    pub installer: Option<InstallerField>,
    pub uninstaller: Option<InstallerField>,
}

/// The mathematical form of a [`ResolvedManifest`].
pub struct ResolvedV {
    pub downloads: Seq<ResolvedDownloadV>,
    pub extract_dir: Option<Seq<char>>,
    pub extract_to: Option<Seq<char>>,
    pub bin: Seq<BinEntryV>,
    pub env_add_path: Seq<Seq<char>>,
    pub env_set: Seq<(Seq<char>, Seq<char>)>,
    pub pre_install: Option<ScriptFieldV>,
    pub post_install: Option<ScriptFieldV>,
    pub pre_uninstall: Option<ScriptFieldV>,
    pub post_uninstall: Option<ScriptFieldV>,
    pub installer: Option<InstallerFieldV>,
    pub uninstaller: Option<InstallerFieldV>,
}

impl DeepView for ResolvedManifest {
    type V = ResolvedV;

    open spec fn deep_view(&self) -> ResolvedV {
        ResolvedV {
            downloads: self.downloads.deep_view(),
            extract_dir: self.extract_dir.deep_view(),
            extract_to: self.extract_to.deep_view(),
            bin: self.bin.deep_view(),
            env_add_path: self.env_add_path.deep_view(),
            env_set: self.env_set.deep_view(),
            pre_install: self.pre_install.deep_view(),
            post_install: self.post_install.deep_view(),
            pre_uninstall: self.pre_uninstall.deep_view(),
            post_uninstall: self.post_uninstall.deep_view(),
            installer: self.installer.deep_view(),
            uninstaller: self.uninstaller.deep_view(),
        }
    }
}

/// The first block in `es` whose key is `key`.
pub open spec fn arch_entry(es: Seq<(String, ArchManifest)>, key: Seq<char>) -> Option<ArchManifest>
    decreases es.len(),
{
    if es.len() == 0 {
        None
    } else if es[0].0@ == key {
        Some(es[0].1)
    } else {
        arch_entry(es.drop_first(), key)
    }
}

/// The override when there is one, the root value otherwise.
pub open spec fn or_root<T>(a: Option<T>, root: Option<T>) -> Option<T> {
    if a is Some {
        a
    } else {
        root
    }
}

/// The items of an optional list field, none when absent.
pub open spec fn items_of<V>(o: Option<OneOrManyV<V>>) -> Seq<V> {
    match o {
        Some(v) => v.items(),
        None => Seq::empty(),
    }
}

/// The first item of a list field, or the empty string for an empty list.
pub open spec fn first_of(o: Option<OneOrManyV<Seq<char>>>) -> Option<Seq<char>> {
    match o {
        Some(v) => Some(if v.items().len() > 0 { v.items()[0] } else { Seq::empty() }),
        None => None,
    }
}

/// The downloads for a list of URLs and a list of hashes, paired by
/// position; URLs beyond the hash list have no hash.
pub open spec fn pair_downloads(urls: Seq<Seq<char>>, hashes: Seq<Seq<char>>) -> Seq<ResolvedDownloadV> {
    Seq::new(
        urls.len(),
        |i: int| ResolvedDownloadV {
            download: parse_download(urls[i]),
            hash: if i < hashes.len() { Some(hashes[i]) } else { None },
        },
    )
}

impl Manifest {
    /// The architecture block for `arch`, if the manifest has one.
    pub open spec fn block(&self, arch: Architecture) -> Option<ArchManifest> {
        match self.architecture {
            Some(v) => arch_entry(v@, arch_key(arch)),
            None => None,
        }
    }

    /// The URL list that applies to `arch`.
    pub open spec fn url_for(&self, arch: Architecture) -> Option<OneOrMany<String>> {
        or_root(
            match self.block(arch) {
                Some(a) => a.url,
                None => None,
            },
            self.url,
        )
    }

    /// The manifest resolved for `arch`; none when no URL applies to it.
    pub open spec fn resolve(&self, arch: Architecture) -> Option<ResolvedV> {
        let b = self.block(arch);
        match self.url_for(arch) {
            None => None,
            Some(u) => Some(
                ResolvedV {
                    downloads: pair_downloads(
                        u.deep_view().items(),
                        items_of(
                            or_root(
                                match b {
                                    Some(a) => a.hash,
                                    None => None,
                                },
                                self.hash,
                            ).deep_view(),
                        ),
                    ),
                    extract_dir: first_of(
                        or_root(
                            match b {
                                Some(a) => a.extract_dir,
                                None => None,
                            },
                            self.extract_dir,
                        ).deep_view(),
                    ),
                    extract_to: first_of(
                        or_root(
                            match b {
                                Some(a) => a.extract_to,
                                None => None,
                            },
                            self.extract_to,
                        ).deep_view(),
                    ),
                    bin: items_of(
                        or_root(
                            match b {
                                Some(a) => a.bin,
                                None => None,
                            },
                            self.bin,
                        ).deep_view(),
                    ),
                    env_add_path: items_of(
                        or_root(
                            match b {
                                Some(a) => a.env_add_path,
                                None => None,
                            },
                            self.env_add_path,
                        ).deep_view(),
                    ),
                    env_set: match or_root(
                        match b {
                            Some(a) => a.env_set,
                            None => None,
                        },
                        self.env_set,
                    ) {
                        Some(e) => e.deep_view(),
                        None => Seq::empty(),
                    },
                    pre_install: or_root(
                        match b {
                            Some(a) => a.pre_install,
                            None => None,
                        },
                        self.pre_install,
                    ).deep_view(),
                    post_install: or_root(
                        match b {
                            Some(a) => a.post_install,
                            None => None,
                        },
                        self.post_install,
                    ).deep_view(),
                    pre_uninstall: or_root(
                        match b {
                            Some(a) => a.pre_uninstall,
                            None => None,
                        },
                        self.pre_uninstall,
                    ).deep_view(),
                    post_uninstall: or_root(
                        match b {
                            Some(a) => a.post_uninstall,
                            None => None,
                        },
                        self.post_uninstall,
                    ).deep_view(),
                    installer: or_root(
                        match b {
                            Some(a) => a.installer,
                            None => None,
                        },
                        self.installer,
                    ).deep_view(),
                    uninstaller: or_root(
                        match b {
                            Some(a) => a.uninstaller,
                            None => None,
                        },
                        self.uninstaller,
                    ).deep_view(),
                },
            ),
        }
    }

    /// The architecture block for `arch`.
    pub fn arch_block(&self, arch: Architecture) -> (r: Option<&ArchManifest>)
        ensures
            match r {
                Some(a) => self.block(arch) == Some(*a),
                None => self.block(arch) is None,
            },
    {
        match &self.architecture {
            None => None,
            Some(v) => {
                let key = arch.key();
                let mut i: usize = 0;
                proof {
                    assert(v@.subrange(0, v@.len() as int) == v@);
                }
                while i < v.len()
                    invariant
                        i <= v@.len(),
                        self.block(arch) == arch_entry(v@, arch_key(arch)),
                        key@ == arch_key(arch),
                        arch_entry(v@, arch_key(arch)) == arch_entry(v@.subrange(i as int, v@.len() as int), arch_key(arch)),
                    decreases v@.len() - i,
                {
                    proof {
                        let t = v@.subrange(i as int, v@.len() as int);
                        assert(t.drop_first() == v@.subrange(i + 1, v@.len() as int));
                    }
                    if text::str_eq(v[i].0.as_str(), key) {
                        return Some(&v[i].1);
                    }
                    i = i + 1;
                }
                None
            },
        }
    }
}

fn pick<'a, T>(a: Option<&'a Option<T>>, root: &'a Option<T>) -> (r: Option<&'a T>)
    ensures
        match r {
            Some(x) => or_root(
                match a {
                    Some(o) => *o,
                    None => None,
                },
                *root,
            ) == Some(*x),
            None => or_root(
                match a {
                    Some(o) => *o,
                    None => None,
                },
                *root,
            ) is None,
        },
{
    match a {
        Some(Some(x)) => Some(x),
        _ => match root {
            Some(x) => Some(x),
            None => None,
        },
    }
}

fn dup_ref<T: Dup>(o: Option<&T>) -> (r: Option<T>)
    ensures
        match o {
            Some(x) => r matches Some(y) && y.deep_view() == x.deep_view(),
            None => r is None,
        },
{
    match o {
        Some(x) => Some(x.dup()),
        None => None,
    }
}

fn items_vec<T: Dup>(o: Option<&OneOrMany<T>>) -> (r: Vec<T>)
    ensures
        r.deep_view() == match o {
            Some(x) => x.deep_view().items(),
            None => Seq::empty(),
        },
{
    match o {
        Some(x) => x.to_vec(),
        None => {
            let r: Vec<T> = Vec::new();
            assert(r.deep_view() =~= Seq::<T::V>::empty());
            r
        },
    }
}

fn first_string(o: Option<&OneOrMany<String>>) -> (r: Option<String>)
    ensures
        r.deep_view() == first_of(
            match o {
                Some(x) => Some(x.deep_view()),
                None => None,
            },
        ),
{
    match o {
        Some(x) => {
            let v = x.to_vec();
            if v.len() > 0 {
                Some(v[0].clone())
            } else {
                Some(String::new())
            }
        },
        None => None,
    }
}

impl Manifest {
    /// Resolves the manifest for `arch`. Refused, naming the architecture,
    /// when neither the architecture block nor the root gives a URL.
    pub fn resolved(&self, arch: Architecture) -> (r: Result<ResolvedManifest, LastError>)
        ensures
            match r {
                Ok(rm) => self.resolve(arch) == Some(rm.deep_view()),
                Err(e) => self.resolve(arch) is None && e.deep_view() == crate::error::LastErrorV::NoUrlForArchitecture(arch_key(arch)),
            },
    {
        let b = self.arch_block(arch);
        let ghost bs = self.block(arch);
        let url = pick(
            match b {
                Some(a) => Some(&a.url),
                None => None,
            },
            &self.url,
        );
        let urls: Vec<String> = match url {
            Some(u) => u.to_vec(),
            None => {
                return Err(LastError::NoUrlForArchitecture(String::from_str(arch.key())));
            },
        };
        let hashes: Vec<String> = items_vec(pick(
            match b {
                Some(a) => Some(&a.hash),
                None => None,
            },
            &self.hash,
        ));
        let mut downloads: Vec<ResolvedDownload> = Vec::new();
        let mut i: usize = 0;
        while i < urls.len()
            invariant
                i <= urls@.len(),
                downloads.deep_view() =~= pair_downloads(urls.deep_view(), hashes.deep_view()).subrange(0, i as int),
            decreases urls@.len() - i,
        {
            let hash = if i < hashes.len() {
                Some(hashes[i].clone())
            } else {
                None
            };
            let d = ResolvedDownload { download: DownloadUrl::parse(urls[i].as_str()), hash };
            let ghost before = downloads.deep_view();
            downloads.push(d);
            assert(downloads.deep_view() =~= before.push(d.deep_view()));
            i = i + 1;
        }
        let rm = ResolvedManifest {
            downloads,
            extract_dir: first_string(pick(
                match b {
                    Some(a) => Some(&a.extract_dir),
                    None => None,
                },
                &self.extract_dir,
            )),
            extract_to: first_string(pick(
                match b {
                    Some(a) => Some(&a.extract_to),
                    None => None,
                },
                &self.extract_to,
            )),
            bin: items_vec(pick(
                match b {
                    Some(a) => Some(&a.bin),
                    None => None,
                },
                &self.bin,
            )),
            env_add_path: items_vec(pick(
                match b {
                    Some(a) => Some(&a.env_add_path),
                    None => None,
                },
                &self.env_add_path,
            )),
            env_set: match pick(
                match b {
                    Some(a) => Some(&a.env_set),
                    None => None,
                },
                &self.env_set,
            ) {
                Some(e) => e.dup(),
                None => {
                    let r: Vec<(String, String)> = Vec::new();
                    assert(r.deep_view() =~= Seq::<(Seq<char>, Seq<char>)>::empty());
                    r
                },
            },
            pre_install: dup_ref(pick(
                match b {
                    Some(a) => Some(&a.pre_install),
                    None => None,
                },
                &self.pre_install,
            )),
            post_install: dup_ref(pick(
                match b {
                    Some(a) => Some(&a.post_install),
                    None => None,
                },
                &self.post_install,
            )),
            pre_uninstall: dup_ref(pick(
                match b {
                    Some(a) => Some(&a.pre_uninstall),
                    None => None,
                },
                &self.pre_uninstall,
            )),
            post_uninstall: dup_ref(pick(
                match b {
                    Some(a) => Some(&a.post_uninstall),
                    None => None,
                },
                &self.post_uninstall,
            )),
            installer: dup_ref(pick(
                match b {
                    Some(a) => Some(&a.installer),
                    None => None,
                },
                &self.installer,
            )),
            uninstaller: dup_ref(pick(
                match b {
                    Some(a) => Some(&a.uninstaller),
                    None => None,
                },
                &self.uninstaller,
            )),
        };
        proof {
            assert(pair_downloads(urls.deep_view(), hashes.deep_view()).subrange(0, urls@.len() as int)
                =~= pair_downloads(urls.deep_view(), hashes.deep_view()));
        }
        Ok(rm)
    }
}


/// The stem of the file at `path`, or nothing.
pub open spec fn stem_or_empty(path: Seq<char>) -> Seq<char> {
    match crate::path::file_stem(path) {
        Some(s) => s,
        None => Seq::empty(),
    }
}

/// The fields of a manifest that the package manager ignores entirely.
pub open spec fn ignorable_fields() -> Seq<Seq<char>> {
    seq!["autoupdate"@, "checkver"@]
}

/// The keys of architectures in their fixed order, those for which
/// `keep` holds.
pub open spec fn arch_keys_where(keep: spec_fn(Architecture) -> bool) -> Seq<Seq<char>> {
    (if keep(Architecture::X64) { seq![arch_key(Architecture::X64)] } else { Seq::empty() })
        + (if keep(Architecture::X86) { seq![arch_key(Architecture::X86)] } else { Seq::empty() })
        + (if keep(Architecture::Arm64) { seq![arch_key(Architecture::Arm64)] } else { Seq::empty() })
}

/// Distinct architectures have distinct keys.
pub proof fn lemma_arch_key_injective(a: Architecture, b: Architecture)
    ensures
        arch_key(a) == arch_key(b) ==> a == b,
{
    reveal_strlit("64bit");
    reveal_strlit("32bit");
    reveal_strlit("arm64");
    if a != b {
        match (a, b) {
            (Architecture::X64, Architecture::X86) | (Architecture::X86, Architecture::X64) => {
                assert(arch_key(a)[0] != arch_key(b)[0]);
            },
            (Architecture::X64, Architecture::Arm64) | (Architecture::Arm64, Architecture::X64) => {
                assert(arch_key(a)[0] != arch_key(b)[0]);
            },
            _ => {
                assert(arch_key(a)[0] != arch_key(b)[0]);
            },
        }
    }
}

impl Manifest {
    /// A manifest is usable when it names a version and has a URL, an
    /// `architecture` block or an `installer`.
    pub open spec fn is_valid(&self) -> bool {
        text::trim(self.version@).len() > 0 && (self.url is Some || self.architecture is Some
            || self.installer is Some)
    }

    /// Basic structural validation.
    pub fn validate(&self) -> (r: Result<(), LastError>)
        ensures
            r is Ok <==> self.is_valid(),
            r matches Err(e) ==> if text::trim(self.version@).len() == 0 {
                e.deep_view() == crate::error::LastErrorV::MissingVersion(self.name@)
            } else {
                e.deep_view() == crate::error::LastErrorV::MissingSource(self.name@)
            },
    {
        let v = text::trim_exec(self.version.as_str());
        if v.unicode_len() == 0 {
            return Err(LastError::MissingVersion(self.name.clone()));
        }
        if self.url.is_none() && self.architecture.is_none() && self.installer.is_none() {
            return Err(LastError::MissingSource(self.name.clone()));
        }
        Ok(())
    }

    /// A manifest just parsed from the file at `path`: named after the
    /// file's stem (or unnamed if the path has none), then validated.
    pub fn from_parsed(parsed: Manifest, path: &str) -> (r: Result<Manifest, LastError>)
        ensures
            r is Ok <==> (text::trim(parsed.version@).len() > 0 && (parsed.url is Some
                || parsed.architecture is Some || parsed.installer is Some)),
            r matches Ok(m) ==> m == (Manifest { name: m.name, ..parsed }) && m.name@ == stem_or_empty(path@),
            r matches Err(e) ==> e.deep_view() == if text::trim(parsed.version@).len() == 0 {
                crate::error::LastErrorV::MissingVersion(stem_or_empty(path@))
            } else {
                crate::error::LastErrorV::MissingSource(stem_or_empty(path@))
            },
    {
        let mut m = parsed;
        m.name = match crate::path::file_stem_exec(path) {
            Some(s) => s,
            None => String::new(),
        };
        match m.validate() {
            Ok(()) => Ok(m),
            Err(e) => Err(e),
        }
    }

    /// The manifest under another name.
    pub fn renamed(manifest: Manifest, name: &str) -> (r: Manifest)
        ensures
            r == (Manifest { name: r.name, ..manifest }),
            r.name@ == name@,
            manifest.wf() ==> r.wf(),
    {
        let mut m = manifest;
        m.name = String::from_str(name);
        m
    }

    /// The `persist` entries, paths relative to the install directory.
    pub fn persist_entries(&self) -> (r: Vec<String>)
        ensures
            r.deep_view() == items_of(self.persist.deep_view()),
    {
        items_vec(self.persist.as_ref())
    }

    /// The dependencies (`<bucket>/<app>` or `<app>`).
    pub fn depends(&self) -> (r: Vec<String>)
        ensures
            r.deep_view() == items_of(self.depends.deep_view()),
    {
        items_vec(self.depends.as_ref())
    }

    /// The manifest has a field named `k` among those it ignores.
    pub open spec fn has_extra(&self, k: Seq<char>) -> bool {
        exists|i: int| 0 <= i < self.extra@.len() && self.extra@[i].0@ == k
    }

    /// Whether the manifest has a field named `k` among those it ignores.
    pub fn has_extra_exec(&self, k: &str) -> (r: bool)
        ensures
            r == self.has_extra(k@),
    {
        let mut i: usize = 0;
        while i < self.extra.len()
            invariant
                i <= self.extra@.len(),
                forall|j: int| 0 <= j < i ==> self.extra@[j].0@ != k@,
            decreases self.extra@.len() - i,
        {
            if text::str_eq(self.extra[i].0.as_str(), k) {
                return true;
            }
            i = i + 1;
        }
        false
    }

    /// The fields present in the manifest that are ignored entirely
    /// (`autoupdate`, `checkver`), in that order.
    pub fn ignored_fields(&self) -> (r: Vec<&'static str>)
        ensures
            r@.map_values(|s: &str| s@) == ignorable_fields().filter(|k: Seq<char>| self.has_extra(k)),
    {
        let mut r: Vec<&'static str> = Vec::new();
        if self.has_extra_exec("autoupdate") {
            r.push("autoupdate");
        }
        if self.has_extra_exec("checkver") {
            r.push("checkver");
        }
        proof {
            let f = |k: Seq<char>| self.has_extra(k);
            let s = ignorable_fields();
            assert(s.drop_last() =~= seq!["autoupdate"@]);
            assert(seq!["autoupdate"@].drop_last() =~= Seq::<Seq<char>>::empty());
            reveal_with_fuel(Seq::filter, 3);
            assert(r@.map_values(|s: &str| s@) =~= s.filter(f));
        }
        r
    }

    /// The keys of the architectures for which the manifest provides a
    /// download URL, in the order 64bit, 32bit, arm64.
    pub open spec fn available_keys(&self) -> Seq<Seq<char>> {
        arch_keys_where(|a: Architecture| self.resolve(a) is Some)
    }

    /// The architectures for which this manifest provides a download URL.
    pub fn available_architectures(&self) -> (r: Vec<&'static str>)
        ensures
            r@.map_values(|s: &str| s@) == self.available_keys(),
    {
        let mut r: Vec<&'static str> = Vec::new();
        let ghost keep = |a: Architecture| self.resolve(a) is Some;
        if self.resolved(Architecture::X64).is_ok() {
            r.push(Architecture::X64.key());
        }
        let ghost r1 = r@;
        if self.resolved(Architecture::X86).is_ok() {
            r.push(Architecture::X86.key());
        }
        let ghost r2 = r@;
        if self.resolved(Architecture::Arm64).is_ok() {
            r.push(Architecture::Arm64.key());
        }
        proof {
            let a = if keep(Architecture::X64) { seq![arch_key(Architecture::X64)] } else { Seq::empty() };
            let b = if keep(Architecture::X86) { seq![arch_key(Architecture::X86)] } else { Seq::empty() };
            let c = if keep(Architecture::Arm64) { seq![arch_key(Architecture::Arm64)] } else { Seq::empty() };
            assert(r1.map_values(|s: &str| s@) =~= a);
            assert(r2.map_values(|s: &str| s@) =~= a + b);
            assert(r@.map_values(|s: &str| s@) =~= a + b + c);
        }
        r
    }
}

/// An architecture is listed as available exactly when the manifest
/// resolves for it.
pub proof fn lemma_available_iff_resolvable(m: &Manifest, arch: Architecture)
    ensures
        m.available_keys().contains(arch_key(arch)) <==> m.resolve(arch) is Some,
{
    let keep = |a: Architecture| m.resolve(a) is Some;
    let a = if keep(Architecture::X64) { seq![arch_key(Architecture::X64)] } else { Seq::empty() };
    let b = if keep(Architecture::X86) { seq![arch_key(Architecture::X86)] } else { Seq::empty() };
    let c = if keep(Architecture::Arm64) { seq![arch_key(Architecture::Arm64)] } else { Seq::empty() };
    let all = m.available_keys();
    assert(all == a + b + c);
    if m.resolve(arch) is Some {
        let i = match arch {
            Architecture::X64 => 0,
            Architecture::X86 => a.len() as int,
            Architecture::Arm64 => (a.len() + b.len()) as int,
        };
        assert(all[i] == arch_key(arch));
    }
    if all.contains(arch_key(arch)) {
        let i = choose|i: int| 0 <= i < all.len() && all[i] == arch_key(arch);
        if i < a.len() {
            lemma_arch_key_injective(arch, Architecture::X64);
        } else if i < a.len() + b.len() {
            assert(all[i] == b[i - a.len()]);
            lemma_arch_key_injective(arch, Architecture::X86);
        } else {
            assert(all[i] == c[i - a.len() - b.len()]);
            lemma_arch_key_injective(arch, Architecture::Arm64);
        }
    }
}

/// A manifest with a root-level URL resolves for every architecture whose
/// block does not exist, and every architecture whose block gives a URL
/// resolves too.
pub proof fn lemma_root_url_resolves(m: &Manifest, arch: Architecture)
    requires
        m.url is Some || (m.block(arch) matches Some(b) && b.url is Some),
    ensures
        m.resolve(arch) is Some,
{
}

/// The downloads pair each URL with the hash at the same position.
pub proof fn lemma_downloads_pair_hashes(m: &Manifest, arch: Architecture, i: int)
    requires
        m.resolve(arch) is Some,
        0 <= i < m.resolve(arch)->Some_0.downloads.len(),
    ensures
        m.resolve(arch)->Some_0.downloads.len() == m.url_for(arch)->Some_0.deep_view().items().len(),
        m.resolve(arch)->Some_0.downloads[i].download == parse_download(m.url_for(arch)->Some_0.deep_view().items()[i]),
{
}

/// The hash list that applies to `arch`: the architecture block's, when
/// the block gives one, else the manifest's own; empty when neither does.
pub open spec fn hashes_for(m: &Manifest, arch: Architecture) -> Seq<Seq<char>> {
    match m.block(arch) {
        Some(a) if a.hash is Some => a.hash->Some_0.deep_view().items(),
        _ => match m.hash {
            Some(h) => h.deep_view().items(),
            None => Seq::empty(),
        },
    }
}

/// Each download of a resolved manifest carries the hash at its own
/// position in the hash list that applies to the architecture; a download
/// beyond the end of that list carries none.
pub proof fn lemma_download_hash_at(m: &Manifest, arch: Architecture, i: int)
    requires
        m.resolve(arch) is Some,
        0 <= i < m.resolve(arch)->Some_0.downloads.len(),
    ensures
        i < hashes_for(m, arch).len() ==> m.resolve(arch)->Some_0.downloads[i].hash == Some(hashes_for(m, arch)[i]),
        i >= hashes_for(m, arch).len() ==> m.resolve(arch)->Some_0.downloads[i].hash is None,
{
}

} // verus!
