//! `last mirror`: which architectures to mirror, where the binaries go on
//! the share, and how the manifest is rewritten to point there.

use vstd::prelude::*;

use crate::config::MirrorConfig;
use crate::json::JsonValue;
use crate::dup::Dup;
use crate::error::{LastError, LastErrorV};
use crate::manifest::{
    arch_entry, arch_key, items_of, lemma_arch_key_injective, download_file_name, ArchManifest, Architecture, Manifest, OneOrMany, OneOrManyV, ResolvedDownload,
    ResolvedDownloadV,
};
use crate::path;
use crate::text;

verus! {

/// The public Scoop bucket to mirror from.
#[derive(Debug, Clone, Copy, PartialEq, Eq, Structural)]
pub enum MirrorSource {
    Main,
    Extras,
}

/// The bucket's name in the Scoop organisation.
pub open spec fn source_bucket(s: MirrorSource) -> Seq<char> {
    match s {
        MirrorSource::Main => "Main"@,
        MirrorSource::Extras => "Extras"@,
    }
}

/// Where a public manifest is fetched from.
pub open spec fn manifest_url_of(s: MirrorSource, app: Seq<char>) -> Seq<char> {
    "https://raw.githubusercontent.com/ScoopInstaller/"@ + source_bucket(s) + "/master/bucket/"@ + app + ".json"@
}

impl MirrorSource {
    /// `main` or `extras`, in any ASCII case; refused otherwise, naming the
    /// lower-cased text.
    pub fn parse(s: &str) -> (r: Result<MirrorSource, LastError>)
        ensures
            match r {
                Ok(m) => (m == MirrorSource::Main && text::lower(s@) == "main"@) || (m == MirrorSource::Extras
                    && text::lower(s@) == "extras"@),
                Err(e) => text::lower(s@) != "main"@ && text::lower(s@) != "extras"@ && e.deep_view()
                    == LastErrorV::UnknownMirrorSource(text::lower(s@)),
            },
    {
        let l = text::lower_exec(s);
        if text::str_eq(l.as_str(), "main") {
            Ok(MirrorSource::Main)
        } else if text::str_eq(l.as_str(), "extras") {
            Ok(MirrorSource::Extras)
        } else {
            Err(LastError::UnknownMirrorSource(l))
        }
    }

    /// The URL of the public manifest of `app`.
    pub fn manifest_url(&self, app: &str) -> (r: String)
        ensures
            r@ == manifest_url_of(*self, app@),
    {
        let mut r = String::from_str("https://raw.githubusercontent.com/ScoopInstaller/");
        r.append(
            match self {
                MirrorSource::Main => "Main",
                MirrorSource::Extras => "Extras",
            },
        );
        r.append("/master/bucket/");
        r.append(app);
        r.append(".json");
        proof {
            assert(r@ =~= manifest_url_of(*self, app@));
        }
        r
    }
}

/// The share directory of an architecture.
pub open spec fn arch_dir(a: Architecture) -> Seq<char> {
    match a {
        Architecture::X64 => "x64"@,
        Architecture::X86 => "x86"@,
        Architecture::Arm64 => "arm64"@,
    }
}

/// `Windows\<vendor>\<app name> <version>\<arch>\<file>`.
pub open spec fn share_path(vendor: Seq<char>, app_name: Seq<char>, version: Seq<char>, a: Architecture, file: Seq<char>) -> Seq<char> {
    path::join(
        path::join(path::join(path::join("Windows"@, vendor), app_name + seq![' '] + version), arch_dir(a)),
        file,
    )
}

/// Where a mirrored binary goes, relative to the share.
pub fn share_relative_path(vendor: &str, app_name: &str, version: &str, arch: Architecture, file_name: &str) -> (r: String)
    ensures
        r@ == share_path(vendor@, app_name@, version@, arch, file_name@),
{
    let mut dir = String::from_str(app_name);
    dir.append(" ");
    dir.append(version);
    proof {
        reveal_strlit(" ");
        assert(dir@ =~= app_name@ + seq![' '] + version@);
    }
    let a = path::join_exec("Windows", vendor);
    let b = path::join_exec(a.as_str(), dir.as_str());
    let c = path::join_exec(
        b.as_str(),
        match arch {
            Architecture::X64 => "x64",
            Architecture::X86 => "x86",
            Architecture::Arm64 => "arm64",
        },
    );
    path::join_exec(c.as_str(), file_name)
}

/// The second piece of `s` split at `p` (`str::split(p).nth(1)`).
pub open spec fn second_piece(s: Seq<char>, p: Seq<char>) -> Option<Seq<char>> {
    match text::find_str(s, p) {
        Some(i) => {
            let rest = s.subrange(i + p.len(), s.len() as int);
            Some(
                match text::find_str(rest, p) {
                    Some(j) => rest.subrange(0, j),
                    None => rest,
                },
            )
        },
        None => None,
    }
}

/// The upper-case form of `c` (possibly several characters), as
/// `char::to_uppercase` gives it.
pub uninterp spec fn upper_of(c: char) -> Seq<char>;

/// Calls `char::to_uppercase` and collects the characters. Claimed: the
/// result is `upper_of(c)`, and an ASCII lower-case letter becomes its
/// upper-case letter.
#[verifier::external_body]
fn to_uppercase(c: char) -> (r: String)
    ensures
        r@ == upper_of(c),
        'a' <= c && c <= 'z' ==> r@ == seq![((c as u32) - 32) as char],
{
    c.to_uppercase().collect()
}

/// The upper-case form of `c`: for an ASCII lower-case letter its ASCII
/// capital, otherwise what `char::to_uppercase` gives.
pub open spec fn capital_of(c: char) -> Seq<char> {
    if 'a' <= c && c <= 'z' {
        seq![((c as u32) - 32) as char]
    } else {
        upper_of(c)
    }
}

/// The vendor name guessed from a homepage URL: the host (after `://`,
/// before the first `/`, without `www.`), its second-to-last label (or
/// its only one), capitalized; `Unknown` when there is no homepage or the
/// label is empty.
pub open spec fn vendor_of(homepage: Option<Seq<char>>) -> Seq<char> {
    match homepage {
        None => "Unknown"@,
        Some(h) => {
            let host0 = match second_piece(h, "://"@) {
                Some(x) => x,
                None => h,
            };
            let host1 = text::split(host0, '/')[0];
            let host = if text::starts_with(host1, "www."@) {
                host1.subrange(4, host1.len() as int)
            } else {
                host1
            };
            let parts = text::split(host, '.');
            let name = if parts.len() >= 2 {
                parts[parts.len() - 2]
            } else {
                parts[0]
            };
            if name.len() == 0 {
                "Unknown"@
            } else {
                capital_of(name[0]) + name.drop_first()
            }
        },
    }
}

/// Best-effort vendor detection from the manifest's homepage.
pub fn detect_vendor(homepage: Option<&str>) -> (r: String)
    ensures
        r@ == vendor_of(
            match homepage {
                Some(h) => Some(h@),
                None => None,
            },
        ),
{
    proof {
        reveal_strlit("Unknown");
        reveal_strlit("://");
        reveal_strlit("www.");
    }
    let h = match homepage {
        None => {
            return String::from_str("Unknown");
        },
        Some(h) => h,
    };
    let hv = text::to_chars(h);
    let sep = text::to_chars("://");
    let ghost hs = hv@;
    let _hl = hv.len();
    proof {
        assert(sep@.len() == 3);
        assert(hs.subrange(0, hs.len() as int) == hs);
    }
    let host0: String = match text::find_str_from(&hv, 0, &sep) {
        Some(i) => {
            let after = i + 3;
            let ghost rest = hs.subrange(after as int, hs.len() as int);
            match text::find_str_from(&hv, after, &sep) {
                Some(j) => {
                    proof {
                        assert(rest.subrange(0, j - after) == hs.subrange(after as int, j as int));
                    }
                    text::string_of_range(&hv, after, j)
                },
                None => text::string_of_range(&hv, after, hv.len()),
            }
        },
        None => String::from_str(h),
    };
    let pieces = text::split_exec(host0.as_str(), '/');
    proof {
        text::lemma_split_nonempty(host0@, '/');
    }
    let host1 = pieces[0].clone();
    let host: String = if text::starts_with_exec(host1.as_str(), "www.") {
        let v = text::to_chars(host1.as_str());
        text::string_of_range(&v, 4, v.len())
    } else {
        host1
    };
    let parts = text::split_exec(host.as_str(), '.');
    proof {
        text::lemma_split_nonempty(host@, '.');
    }
    let name = if parts.len() >= 2 {
        parts[parts.len() - 2].clone()
    } else {
        parts[0].clone()
    };
    let nv = text::to_chars(name.as_str());
    if nv.len() == 0 {
        return String::from_str("Unknown");
    }
    let mut r = to_uppercase(nv[0]);
    let rest = text::string_of_range(&nv, 1, nv.len());
    r.append(rest.as_str());
    proof {
        assert(nv@.subrange(1, nv@.len() as int) == nv@.drop_first());
    }
    r
}

/// A list of values as a manifest writes it: a single value alone, any
/// other number as an array.
pub open spec fn one_or_many_of(vals: Seq<Seq<char>>) -> OneOrManyV<Seq<char>> {
    if vals.len() == 1 {
        OneOrManyV::One(vals[0])
    } else {
        OneOrManyV::Many(vals)
    }
}

/// A list of values as written back to a manifest: a single value alone,
/// any other number as an array.
pub fn to_one_or_many(values: Vec<String>) -> (r: OneOrMany<String>)
    ensures
        r.deep_view() == one_or_many_of(values.deep_view()),
{
    let mut values = values;
    if values.len() == 1 {
        OneOrMany::One(values.remove(0))
    } else {
        OneOrMany::Many(values)
    }
}

/// The architecture a key names, if any.
pub open spec fn arch_named(k: Seq<char>) -> Option<Architecture> {
    if k == arch_key(Architecture::X64) {
        Some(Architecture::X64)
    } else if k == arch_key(Architecture::X86) {
        Some(Architecture::X86)
    } else if k == arch_key(Architecture::Arm64) {
        Some(Architecture::Arm64)
    } else {
        None
    }
}

/// `arch_named` is the inverse of `arch_key`.
pub proof fn lemma_arch_named(k: Seq<char>)
    ensures
        arch_named(k) matches Some(a) ==> arch_key(a) == k,
        arch_named(k) is None ==> forall|a: Architecture| arch_key(a) != k,
        forall|a: Architecture| #[trigger] arch_named(arch_key(a)) == Some(a),
{
    reveal_strlit("64bit");
    reveal_strlit("32bit");
    reveal_strlit("arm64");
    assert("64bit"@ != "32bit"@ && "64bit"@ != "arm64"@ && "32bit"@ != "arm64"@) by {
        assert("64bit"@[0] != "32bit"@[0]);
        assert("64bit"@[0] != "arm64"@[0]);
        assert("32bit"@[0] != "arm64"@[0]);
    }
}

/// The architectures named by `keys`, in order, skipping keys that name
/// none.
pub open spec fn parsed_archs(keys: Seq<Seq<char>>) -> Seq<Architecture>
    decreases keys.len(),
{
    if keys.len() == 0 {
        Seq::empty()
    } else {
        let rest = parsed_archs(keys.drop_last());
        match arch_named(keys.last()) {
            Some(a) => rest.push(a),
            None => rest,
        }
    }
}

/// The architectures a mirror run asks for: those given on the command
/// line, else those configured under `mirror.architectures`.
pub open spec fn requested_archs(given: Seq<Architecture>, configured: Seq<Seq<char>>) -> Seq<Architecture> {
    if given.len() == 0 {
        parsed_archs(configured)
    } else {
        given
    }
}

/// The architectures to mirror before checking the manifest.
pub fn requested_architectures(given: &Vec<Architecture>, configured: &Vec<String>) -> (r: Vec<Architecture>)
    ensures
        r@ == requested_archs(given@, configured.deep_view()),
{
    if given.len() > 0 {
        return given.clone();
    }
    let mut r: Vec<Architecture> = Vec::new();
    let mut i: usize = 0;
    while i < configured.len()
        invariant
            i <= configured@.len(),
            r@ == parsed_archs(configured.deep_view().subrange(0, i as int)),
        decreases configured@.len() - i,
    {
        let ghost keys = configured.deep_view().subrange(0, i + 1);
        proof {
            assert(keys.drop_last() == configured.deep_view().subrange(0, i as int));
            lemma_arch_named(configured@[i as int]@);
        }
        match Architecture::parse(configured[i].as_str()) {
            Ok(a) => {
                r.push(a);
            },
            Err(_) => {},
        }
        i = i + 1;
    }
    proof {
        assert(configured.deep_view().subrange(0, configured@.len() as int) == configured.deep_view());
    }
    r
}

/// The requested architectures the manifest can be resolved for.
pub open spec fn resolvable_archs(m: &Manifest, archs: Seq<Architecture>) -> Seq<Architecture> {
    archs.filter(|a: Architecture| m.resolve(a) is Some)
}

/// Keeps the requested architectures that the manifest provides. Refused,
/// naming the app and the architectures it does provide, when none is left.
pub fn select_architectures(manifest: &Manifest, app: &str, requested: &Vec<Architecture>) -> (r: Result<
    Vec<Architecture>,
    LastError,
>)
    ensures
        match r {
            Ok(v) => v@ == resolvable_archs(manifest, requested@) && v@.len() > 0,
            Err(e) => resolvable_archs(manifest, requested@).len() == 0 && e.deep_view()
                == LastErrorV::NoRequestedArchitecture(app@, text::join(manifest.available_keys(), ", "@)),
        },
{
    let mut r: Vec<Architecture> = Vec::new();
    let mut i: usize = 0;
    while i < requested.len()
        invariant
            i <= requested@.len(),
            r@ == resolvable_archs(manifest, requested@.subrange(0, i as int)),
        decreases requested@.len() - i,
    {
        let a = requested[i];
        proof {
            let s = requested@.subrange(0, i as int);
            assert(requested@.subrange(0, i + 1) == s.push(a));
            s.lemma_filter_push(a, |a: Architecture| manifest.resolve(a) is Some);
        }
        if manifest.resolved(a).is_ok() {
            r.push(a);
        }
        i = i + 1;
    }
    proof {
        assert(requested@.subrange(0, requested@.len() as int) == requested@);
    }
    if r.len() == 0 {
        let keys = manifest.available_architectures();
        let mut names: Vec<String> = Vec::new();
        let mut k: usize = 0;
        while k < keys.len()
            invariant
                k <= keys@.len(),
                text::views(names@) == keys@.map_values(|s: &str| s@).subrange(0, k as int),
            decreases keys@.len() - k,
        {
            let ghost before = names@;
            let name = String::from_str(keys[k]);
            names.push(name);
            proof {
                assert(names@ == before.push(name));
                assert(text::views(names@) =~= text::views(before).push(name@));
                assert(text::views(names@) =~= keys@.map_values(|s: &str| s@).subrange(0, k + 1));
            }
            k = k + 1;
        }
        proof {
            assert(keys@.map_values(|s: &str| s@).subrange(0, keys@.len() as int) == keys@.map_values(|s: &str| s@));
        }
        let available = text::join_exec(&names, ", ");
        return Err(LastError::NoRequestedArchitecture(String::from_str(app), available));
    }
    Ok(r)
}

/// The hashes of the downloads that have one, in order.
pub open spec fn present_hashes(ds: Seq<ResolvedDownloadV>) -> Seq<Seq<char>>
    decreases ds.len(),
{
    if ds.len() == 0 {
        Seq::empty()
    } else {
        let rest = present_hashes(ds.drop_last());
        match ds.last().hash {
            Some(h) => rest.push(h),
            None => rest,
        }
    }
}

/// Where a download is put on the share.
pub open spec fn share_target(
    share: Seq<char>,
    vendor: Seq<char>,
    app_name: Seq<char>,
    version: Seq<char>,
    a: Architecture,
    d: ResolvedDownloadV,
) -> Seq<char> {
    path::join(share, share_path(vendor, app_name, version, a, download_file_name(d.download)))
}

/// One binary to mirror: the download and the path it is copied to.
pub struct MirrorItem {
    pub download: ResolvedDownload,
    pub target: String,
}

/// What is mirrored for one architecture: its binaries, and the hashes
/// the manifest gives for them.
pub struct MirrorBlock {
    pub arch: Architecture,
    pub items: Vec<MirrorItem>,
    pub hashes: Vec<String>,
}

/// The share paths of a block's binaries, in order.
pub open spec fn block_targets(b: MirrorBlock) -> Seq<Seq<char>> {
    b.items@.map_values(|it: MirrorItem| it.target@)
}

/// `b` mirrors the downloads of `manifest` for its architecture onto the
/// share.
pub open spec fn plans_block(
    manifest: &Manifest,
    share: Seq<char>,
    vendor: Seq<char>,
    app_name: Seq<char>,
    b: MirrorBlock,
) -> bool {
    &&& manifest.resolve(b.arch) is Some
    &&& {
        let ds = manifest.resolve(b.arch)->Some_0.downloads;
        &&& b.items@.len() == ds.len()
        &&& forall|j: int|
            0 <= j < ds.len() ==> (#[trigger] b.items@[j]).download.deep_view() == ds[j]
                && b.items@[j].target@ == share_target(share, vendor, app_name, manifest.version@, b.arch, ds[j])
        &&& b.hashes.deep_view() == present_hashes(ds)
    }
}

/// The binaries to mirror for `arch` and where each goes. Refused, naming
/// the architecture, when the manifest gives no URL for it.
pub fn plan_block(manifest: &Manifest, share: &str, vendor: &str, app_name: &str, arch: Architecture) -> (r: Result<
    MirrorBlock,
    LastError,
>)
    ensures
        match r {
            Ok(b) => b.arch == arch && plans_block(manifest, share@, vendor@, app_name@, b),
            Err(e) => manifest.resolve(arch) is None && e.deep_view() == LastErrorV::NoUrlForArchitecture(arch_key(arch)),
        },
{
    let resolved = match manifest.resolved(arch) {
        Ok(rm) => rm,
        Err(e) => {
            return Err(e);
        },
    };
    let ghost ds = resolved.downloads.deep_view();
    let mut items: Vec<MirrorItem> = Vec::new();
    let mut hashes: Vec<String> = Vec::new();
    let mut i: usize = 0;
    while i < resolved.downloads.len()
        invariant
            i <= resolved.downloads@.len(),
            ds == resolved.downloads.deep_view(),
            manifest.resolve(arch) == Some(resolved.deep_view()),
            items@.len() == i,
            forall|j: int|
                0 <= j < i ==> (#[trigger] items@[j]).download.deep_view() == ds[j] && items@[j].target@
                    == share_target(share@, vendor@, app_name@, manifest.version@, arch, ds[j]),
            hashes.deep_view() == present_hashes(ds.subrange(0, i as int)),
        decreases resolved.downloads@.len() - i,
    {
        let d = &resolved.downloads[i];
        let name = d.download.file_name();
        let rel = share_relative_path(vendor, app_name, manifest.version.as_str(), arch, name.as_str());
        let target = path::join_exec(share, rel.as_str());
        let ghost before = hashes.deep_view();
        proof {
            assert(ds.subrange(0, i + 1).drop_last() == ds.subrange(0, i as int));
        }
        match &d.hash {
            Some(h) => {
                hashes.push(h.clone());
                proof {
                    assert(hashes.deep_view() =~= before.push(h@));
                }
            },
            None => {},
        }
        items.push(MirrorItem { download: d.dup(), target });
        i = i + 1;
    }
    proof {
        assert(ds.subrange(0, ds.len() as int) == ds);
    }
    Ok(MirrorBlock { arch, items, hashes })
}

/// The blocks for all architectures to mirror, in order. Refused, naming
/// the first architecture the manifest gives no URL for.
pub fn plan_blocks(manifest: &Manifest, share: &str, vendor: &str, app_name: &str, archs: &Vec<Architecture>) -> (r:
    Result<Vec<MirrorBlock>, LastError>)
    ensures
        match r {
            Ok(v) => v@.len() == archs@.len() && forall|i: int|
                0 <= i < archs@.len() ==> (#[trigger] v@[i]).arch == archs@[i] && plans_block(
                    manifest,
                    share@,
                    vendor@,
                    app_name@,
                    v@[i],
                ),
            Err(e) => exists|i: int|
                0 <= i < archs@.len() && manifest.resolve(#[trigger] archs@[i]) is None && (forall|j: int|
                    0 <= j < i ==> manifest.resolve(#[trigger] archs@[j]) is Some) && e.deep_view()
                    == LastErrorV::NoUrlForArchitecture(arch_key(archs@[i])),
        },
{
    let mut out: Vec<MirrorBlock> = Vec::new();
    let mut i: usize = 0;
    while i < archs.len()
        invariant
            i <= archs@.len(),
            out@.len() == i,
            forall|j: int|
                0 <= j < i ==> (#[trigger] out@[j]).arch == archs@[j] && plans_block(
                    manifest,
                    share@,
                    vendor@,
                    app_name@,
                    out@[j],
                ),
        decreases archs@.len() - i,
    {
        match plan_block(manifest, share, vendor, app_name, archs[i]) {
            Ok(b) => {
                out.push(b);
            },
            Err(e) => {
                proof {
                    assert forall|j: int| 0 <= j < i implies manifest.resolve(#[trigger] archs@[j]) is Some by {
                        assert(out@[j].arch == archs@[j]);
                        assert(plans_block(manifest, share@, vendor@, app_name@, out@[j]));
                    }
                }
                return Err(e);
            },
        }
        i = i + 1;
    }
    Ok(out)
}

/// An `extra` entry that a mirrored manifest keeps: everything but the
/// update-checking fields, which point at the public source.
pub open spec fn kept_extra(e: (String, JsonValue)) -> bool {
    e.0@ != "autoupdate"@ && e.0@ != "checkver"@
}

/// `new` is the rewritten block for `b`: its URLs are the share targets,
/// its hashes those of the mirrored downloads (none when there are none),
/// and every other field is taken over from the manifest's old block for
/// the architecture, if there was one.
pub open spec fn rewritten_block(new: ArchManifest, old: Option<ArchManifest>, b: MirrorBlock) -> bool {
    &&& new.url.deep_view() == Some(one_or_many_of(block_targets(b)))
    &&& new.hash.deep_view() == if b.hashes@.len() == 0 {
        None
    } else {
        Some(one_or_many_of(b.hashes.deep_view()))
    }
    &&& match old {
        Some(o) => {
            &&& new.bin.deep_view() == o.bin.deep_view()
            &&& new.extract_dir.deep_view() == o.extract_dir.deep_view()
            &&& new.extract_to.deep_view() == o.extract_to.deep_view()
            &&& new.env_add_path.deep_view() == o.env_add_path.deep_view()
            &&& new.env_set.deep_view() == o.env_set.deep_view()
            &&& new.pre_install.deep_view() == o.pre_install.deep_view()
            &&& new.post_install.deep_view() == o.post_install.deep_view()
            &&& new.pre_uninstall.deep_view() == o.pre_uninstall.deep_view()
            &&& new.post_uninstall.deep_view() == o.post_uninstall.deep_view()
            &&& new.installer.deep_view() == o.installer.deep_view()
            &&& new.uninstaller.deep_view() == o.uninstaller.deep_view()
        },
        None => {
            &&& new.bin is None
            &&& new.extract_dir is None
            &&& new.extract_to is None
            &&& new.env_add_path is None
            &&& new.env_set is None
            &&& new.pre_install is None
            &&& new.post_install is None
            &&& new.pre_uninstall is None
            &&& new.post_uninstall is None
            &&& new.installer is None
            &&& new.uninstaller is None
        },
    }
}

/// The fields that a rewrite leaves alone are unchanged.
pub open spec fn same_identity(a: &Manifest, b: &Manifest) -> bool {
    &&& a.name == b.name
    &&& a.version == b.version
    &&& a.description == b.description
    &&& a.homepage == b.homepage
    &&& a.license == b.license
    &&& a.extract_dir == b.extract_dir
    &&& a.extract_to == b.extract_to
    &&& a.bin == b.bin
    &&& a.shortcuts == b.shortcuts
    &&& a.persist == b.persist
    &&& a.env_set == b.env_set
    &&& a.env_add_path == b.env_add_path
    &&& a.depends == b.depends
    &&& a.suggest == b.suggest
    &&& a.installer == b.installer
    &&& a.uninstaller == b.uninstaller
    &&& a.pre_install == b.pre_install
    &&& a.post_install == b.post_install
    &&& a.pre_uninstall == b.pre_uninstall
    &&& a.post_uninstall == b.post_uninstall
    &&& a.notes == b.notes
}

/// `new` is `old` rewritten to point at the mirrored binaries: no root
/// URL or hash, no update-checking fields, and one architecture block per
/// mirrored block, in order.
pub open spec fn rewritten(old: &Manifest, new: &Manifest, blocks: Seq<MirrorBlock>) -> bool {
    &&& same_identity(old, new)
    &&& new.url is None
    &&& new.hash is None
    &&& new.extra@ == old.extra@.filter(|e: (String, JsonValue)| kept_extra(e))
    &&& new.architecture matches Some(v) && v@.len() == blocks.len() && forall|i: int|
        0 <= i < blocks.len() ==> (#[trigger] v@[i]).0@ == arch_key(blocks[i].arch) && rewritten_block(
            v@[i].1,
            old.block(blocks[i].arch),
            blocks[i],
        )
}

fn rewrite_block(manifest: &Manifest, b: &MirrorBlock) -> (r: ArchManifest)
    ensures
        rewritten_block(r, manifest.block(b.arch), *b),
{
    let mut entry = match manifest.arch_block(b.arch) {
        Some(a) => a.dup_block(),
        None => ArchManifest::empty(),
    };
    let mut urls: Vec<String> = Vec::new();
    let mut i: usize = 0;
    while i < b.items.len()
        invariant
            i <= b.items@.len(),
            urls.deep_view() == block_targets(*b).subrange(0, i as int),
        decreases b.items@.len() - i,
    {
        let ghost before = urls.deep_view();
        urls.push(b.items[i].target.clone());
        proof {
            assert(urls.deep_view() =~= before.push(b.items@[i as int].target@));
        }
        i = i + 1;
    }
    proof {
        assert(block_targets(*b).subrange(0, b.items@.len() as int) == block_targets(*b));
    }
    entry.url = Some(to_one_or_many(urls));
    entry.hash = if b.hashes.len() == 0 {
        None
    } else {
        Some(to_one_or_many(b.hashes.dup()))
    };
    entry
}

/// Rewrites the manifest to install from the share: drops the root `url`
/// and `hash` and the update-checking fields, and replaces the
/// `architecture` blocks by one per mirrored architecture.
pub fn rewrite_manifest(manifest: &mut Manifest, blocks: &Vec<MirrorBlock>)
    ensures
        rewritten(old(manifest), final(manifest), blocks@),
        old(manifest).wf() && (forall|i: int, j: int| 0 <= i < j < blocks@.len() ==> blocks@[i].arch != blocks@[j].arch)
            ==> final(manifest).wf(),
{
    let mut entries: Vec<(String, ArchManifest)> = Vec::new();
    let mut i: usize = 0;
    while i < blocks.len()
        invariant
            i <= blocks@.len(),
            entries@.len() == i,
            forall|j: int|
                0 <= j < i ==> (#[trigger] entries@[j]).0@ == arch_key(blocks@[j].arch) && rewritten_block(
                    entries@[j].1,
                    manifest.block(blocks@[j].arch),
                    blocks@[j],
                ),
        decreases blocks@.len() - i,
    {
        let entry = rewrite_block(manifest, &blocks[i]);
        entries.push((String::from_str(blocks[i].arch.key()), entry));
        i = i + 1;
    }
    let mut rest: Vec<(String, JsonValue)> = Vec::new();
    std::mem::swap(&mut rest, &mut manifest.extra);
    let ghost orig = rest@;
    let ghost keep = |e: (String, JsonValue)| kept_extra(e);
    let mut kept: Vec<(String, JsonValue)> = Vec::new();
    proof {
        reveal_strlit("autoupdate");
        reveal_strlit("checkver");
    }
    while rest.len() > 0
        invariant
            orig.filter(keep) == kept@ + rest@.filter(keep),
            keep == (|e: (String, JsonValue)| kept_extra(e)),
        decreases rest@.len(),
    {
        let ghost r0 = rest@;
        let e = rest.remove(0);
        proof {
            assert(r0 == seq![e] + rest@);
            rest@.lemma_filter_prepend(e, keep);
        }
        let drop = text::str_eq(e.0.as_str(), "autoupdate") || text::str_eq(e.0.as_str(), "checkver");
        if !drop {
            let ghost k0 = kept@;
            kept.push(e);
            proof {
                assert(kept@ + rest@.filter(keep) =~= k0 + (seq![e] + rest@.filter(keep)));
            }
        } else {
            proof {
                assert(rest@.filter(keep) =~= Seq::<(String, JsonValue)>::empty() + rest@.filter(keep));
            }
        }
    }
    proof {
        assert(rest@.filter(keep) =~= Seq::<(String, JsonValue)>::empty());
        assert(kept@ + rest@.filter(keep) =~= kept@);
    }
    proof {
        crate::manifest::lemma_filter_distinct_keys(orig, keep);
        assert forall|a: int, b: int| 0 <= a < b < entries@.len() && blocks@[a].arch != blocks@[b].arch implies entries@[a].0@
            != entries@[b].0@ by {
            crate::manifest::lemma_arch_key_injective(blocks@[a].arch, blocks@[b].arch);
        }
    }
    manifest.extra = kept;
    manifest.url = None;
    manifest.hash = None;
    manifest.architecture = Some(entries);
}

proof fn lemma_arch_entry_at(es: Seq<(String, ArchManifest)>, key: Seq<char>, j: int)
    requires
        0 <= j < es.len(),
        es[j].0@ == key,
        forall|k: int| 0 <= k < j ==> (#[trigger] es[k]).0@ != key,
    ensures
        arch_entry(es, key) == Some(es[j].1),
    decreases j,
{
    if j > 0 {
        lemma_arch_entry_at(es.drop_first(), key, j - 1);
    }
}

proof fn lemma_arch_entry_none(es: Seq<(String, ArchManifest)>, key: Seq<char>)
    requires
        forall|k: int| 0 <= k < es.len() ==> (#[trigger] es[k]).0@ != key,
    ensures
        arch_entry(es, key) is None,
    decreases es.len(),
{
    if es.len() > 0 {
        lemma_arch_entry_none(es.drop_first(), key);
    }
}

proof fn first_with_arch(blocks: Seq<MirrorBlock>, a: Architecture, i: int) -> (j: int)
    requires
        0 <= i < blocks.len(),
        blocks[i].arch == a,
    ensures
        0 <= j <= i,
        blocks[j].arch == a,
        forall|k: int| 0 <= k < j ==> (#[trigger] blocks[k]).arch != a,
    decreases i,
{
    if exists|k: int| 0 <= k < i && (#[trigger] blocks[k]).arch == a {
        let k = choose|k: int| 0 <= k < i && (#[trigger] blocks[k]).arch == a;
        first_with_arch(blocks, a, k)
    } else {
        i
    }
}

/// A mirrored manifest installs every mirrored architecture from the
/// share: its URLs are the share targets of the binaries planned for that
/// architecture, its hashes the hashes the public manifest gave for them;
/// and it installs no other architecture.
pub proof fn lemma_mirrored_installs_from_share(
    old: &Manifest,
    new: &Manifest,
    blocks: Seq<MirrorBlock>,
    share: Seq<char>,
    vendor: Seq<char>,
    app_name: Seq<char>,
    a: Architecture,
)
    requires
        rewritten(old, new, blocks),
        forall|k: int| 0 <= k < blocks.len() ==> plans_block(old, share, vendor, app_name, #[trigger] blocks[k]),
    ensures
        forall|i: int|
            0 <= i < blocks.len() && (#[trigger] blocks[i]).arch == a ==> {
                &&& new.resolve(a) is Some
                &&& new.url_for(a)->Some_0.deep_view().items() == block_targets(blocks[i])
                &&& items_of(new.block(a)->Some_0.hash.deep_view()) == present_hashes(old.resolve(a)->Some_0.downloads)
            },
        (forall|i: int| 0 <= i < blocks.len() ==> (#[trigger] blocks[i]).arch != a) ==> new.resolve(a) is None,
{
    let v = new.architecture->Some_0;
    let key = arch_key(a);
    assert forall|i: int| 0 <= i < blocks.len() && (#[trigger] blocks[i]).arch == a implies {
        &&& new.resolve(a) is Some
        &&& new.url_for(a)->Some_0.deep_view().items() == block_targets(blocks[i])
        &&& items_of(new.block(a)->Some_0.hash.deep_view()) == present_hashes(old.resolve(a)->Some_0.downloads)
    } by {
        let j = first_with_arch(blocks, a, i);
        assert forall|k: int| 0 <= k < j implies (#[trigger] v@[k]).0@ != key by {
            lemma_arch_key_injective(blocks[k].arch, a);
        }
        lemma_arch_entry_at(v@, key, j);
        let bj = blocks[j];
        let bi = blocks[i];
        assert(plans_block(old, share, vendor, app_name, bj));
        assert(plans_block(old, share, vendor, app_name, bi));
        assert(block_targets(bj) =~= block_targets(bi)) by {
            let ds = old.resolve(a)->Some_0.downloads;
            assert forall|k: int| 0 <= k < ds.len() implies bj.items@[k].target@ == bi.items@[k].target@ by {
                assert(bj.items@[k].target@ == share_target(share, vendor, app_name, old.version@, a, ds[k]));
                assert(bi.items@[k].target@ == share_target(share, vendor, app_name, old.version@, a, ds[k]));
            }
        }
        assert(one_or_many_of(block_targets(bj)).items() =~= block_targets(bj));
        assert(one_or_many_of(bj.hashes.deep_view()).items() =~= bj.hashes.deep_view());
    }
    if forall|i: int| 0 <= i < blocks.len() ==> (#[trigger] blocks[i]).arch != a {
        assert forall|k: int| 0 <= k < v@.len() implies (#[trigger] v@[k]).0@ != key by {
            lemma_arch_key_injective(blocks[k].arch, a);
        }
        lemma_arch_entry_none(v@, key);
    }
}

/// Options of `last mirror`.
pub struct MirrorOptions {
    pub source: MirrorSource,
    /// Architectures to mirror; when empty, those configured under
    /// `mirror.architectures`.
    pub architectures: Vec<Architecture>,
    pub vendor: Option<String>,
    pub app_name: Option<String>,
    pub list_only: bool,
    pub skip_download: bool,
}

/// Everything a mirror run does, decided before any binary is fetched.
pub struct MirrorPlan {
    pub vendor: String,
    pub app_name: String,
    pub archs: Vec<Architecture>,
    pub blocks: Vec<MirrorBlock>,
}

/// The vendor a mirror run files the binaries under.
pub open spec fn plan_vendor(manifest: &Manifest, options: &MirrorOptions) -> Seq<char> {
    match options.vendor {
        Some(v) => v@,
        None => vendor_of(
            match manifest.homepage {
                Some(h) => Some(h@),
                None => None,
            },
        ),
    }
}

/// The app name a mirror run files the binaries under.
pub open spec fn plan_app_name(app: Seq<char>, options: &MirrorOptions) -> Seq<char> {
    match options.app_name {
        Some(n) => n@,
        None => app,
    }
}

/// Plans the mirroring of `app`: the vendor and app name to file it under,
/// the architectures to mirror (the requested ones the manifest provides),
/// and for each of them the binaries and their places on the share.
/// Refused, naming the app and what it provides, when the manifest
/// provides none of the requested architectures.
pub fn plan_mirror(manifest: &Manifest, app: &str, options: &MirrorOptions, config: &MirrorConfig) -> (r: Result<
    MirrorPlan,
    LastError,
>)
    ensures
        match r {
            Ok(p) => {
                let archs = resolvable_archs(
                    manifest,
                    requested_archs(options.architectures@, config.architectures.deep_view()),
                );
                &&& p.vendor@ == plan_vendor(manifest, options)
                &&& p.app_name@ == plan_app_name(app@, options)
                &&& p.archs@ == archs
                &&& archs.len() > 0
                &&& p.blocks@.len() == archs.len()
                &&& forall|i: int|
                    0 <= i < archs.len() ==> (#[trigger] p.blocks@[i]).arch == archs[i] && plans_block(
                        manifest,
                        config.binary_share@,
                        p.vendor@,
                        p.app_name@,
                        p.blocks@[i],
                    )
            },
            Err(e) => resolvable_archs(
                manifest,
                requested_archs(options.architectures@, config.architectures.deep_view()),
            ).len() == 0 && e.deep_view() == LastErrorV::NoRequestedArchitecture(
                app@,
                text::join(manifest.available_keys(), ", "@),
            ),
        },
{
    let vendor = match &options.vendor {
        Some(v) => v.clone(),
        None => detect_vendor(
            match &manifest.homepage {
                Some(h) => Some(h.as_str()),
                None => None,
            },
        ),
    };
    let app_name = match &options.app_name {
        Some(n) => n.clone(),
        None => String::from_str(app),
    };
    let requested = requested_architectures(&options.architectures, &config.architectures);
    let archs = match select_architectures(manifest, app, &requested) {
        Ok(a) => a,
        Err(e) => {
            return Err(e);
        },
    };
    proof {
        assert forall|i: int| 0 <= i < archs@.len() implies manifest.resolve(#[trigger] archs@[i]) is Some by {
            let p = |a: Architecture| manifest.resolve(a) is Some;
            requested@.lemma_filter_pred(p, i);
        }
    }
    let blocks = match plan_blocks(manifest, config.binary_share.as_str(), vendor.as_str(), app_name.as_str(), &archs) {
        Ok(b) => b,
        Err(e) => {
            return Err(e);
        },
    };
    Ok(MirrorPlan { vendor, app_name, archs, blocks })
}

/// Refused unless both the binary share and the bucket path are
/// configured.
pub fn check_mirror_config(config: &MirrorConfig) -> (r: Result<(), LastError>)
    ensures
        r is Ok <==> config.binary_share@.len() > 0 && config.bucket_path@.len() > 0,
        r matches Err(e) ==> e.deep_view() == LastErrorV::MirrorNotConfigured,
{
    if config.binary_share.unicode_len() == 0 || config.bucket_path.unicode_len() == 0 {
        Err(LastError::MirrorNotConfigured)
    } else {
        Ok(())
    }
}

/// What a mirror run does once its plan is made.
#[derive(Clone, Copy, PartialEq, Eq, Structural)]
pub enum MirrorCourse {
    /// Show the plan and stop.
    ListOnly,
    /// Write the rewritten manifest, copying no binaries.
    RewriteOnly,
    /// Copy the binaries to the share, then write the rewritten manifest.
    CopyAndRewrite,
}

/// The course of a mirror run: with `list_only`, the plan is shown and
/// nothing else happens; otherwise the share and bucket paths must be
/// configured, and the binaries are copied unless `skip_download`.
pub open spec fn course_of(options: &MirrorOptions, config: &MirrorConfig) -> Result<MirrorCourse, LastErrorV> {
    if options.list_only {
        Ok(MirrorCourse::ListOnly)
    } else if config.binary_share@.len() == 0 || config.bucket_path@.len() == 0 {
        Err(LastErrorV::MirrorNotConfigured)
    } else if options.skip_download {
        Ok(MirrorCourse::RewriteOnly)
    } else {
        Ok(MirrorCourse::CopyAndRewrite)
    }
}

/// Decides the course of a mirror run.
pub fn mirror_course(options: &MirrorOptions, config: &MirrorConfig) -> (r: Result<MirrorCourse, LastError>)
    ensures
        match r {
            Ok(c) => course_of(options, config) == Ok::<MirrorCourse, LastErrorV>(c),
            Err(e) => course_of(options, config) == Err::<MirrorCourse, LastErrorV>(e.deep_view()),
        },
{
    if options.list_only {
        return Ok(MirrorCourse::ListOnly);
    }
    match check_mirror_config(config) {
        Err(e) => Err(e),
        Ok(()) => if options.skip_download {
            Ok(MirrorCourse::RewriteOnly)
        } else {
            Ok(MirrorCourse::CopyAndRewrite)
        },
    }
}

/// Where the rewritten manifest of `app` is written: `bucket\<app>.json`
/// under the configured bucket path.
pub fn mirror_manifest_path(bucket_path: &str, app: &str) -> (r: String)
    ensures
        r@ == path::join(path::join(bucket_path@, "bucket"@), app@ + ".json"@),
{
    let dir = path::join_exec(bucket_path, "bucket");
    let mut file = String::from_str(app);
    file.append(".json");
    path::join_exec(dir.as_str(), file.as_str())
}

/// Whether a download carries a hash.
pub open spec fn hashed() -> spec_fn(ResolvedDownloadV) -> bool {
    |d: ResolvedDownloadV| d.hash is Some
}

/// The hashes kept for a list of downloads are the hashes of the downloads
/// that carry one, in download order: the download at position `j` with a
/// hash has it at the position given by the number of hashed downloads
/// before it.
pub proof fn lemma_present_hashes_in_order(ds: Seq<ResolvedDownloadV>)
    ensures
        present_hashes(ds).len() == ds.filter(hashed()).len(),
        forall|j: int|
            0 <= j < ds.len() && (#[trigger] ds[j]).hash is Some ==> ds.subrange(0, j).filter(hashed()).len()
                < present_hashes(ds).len() && present_hashes(ds)[ds.subrange(0, j).filter(hashed()).len() as int]
                == ds[j].hash->Some_0,
    decreases ds.len(),
{
    reveal_with_fuel(Seq::filter, 1);
    if ds.len() > 0 {
        let d = ds.drop_last();
        lemma_present_hashes_in_order(d);
        assert forall|j: int| 0 <= j < ds.len() && (#[trigger] ds[j]).hash is Some implies ds.subrange(0, j).filter(
            hashed(),
        ).len() < present_hashes(ds).len() && present_hashes(ds)[ds.subrange(0, j).filter(hashed()).len() as int]
            == ds[j].hash->Some_0 by {
            if j < ds.len() - 1 {
                assert(ds.subrange(0, j) == d.subrange(0, j));
                assert(d[j] == ds[j]);
            } else {
                assert(ds.subrange(0, j) == d);
            }
        }
    }
}

/// A mirror block keeps the hash of every download that has one, in the
/// order of the downloads: with the downloads the manifest resolves to for
/// the block's architecture, the hash of the download at position `j` is
/// at the position given by the number of hashed downloads before it; and
/// when every download has a hash, the `j`-th hash of the block is the
/// hash of the `j`-th download.
pub proof fn lemma_block_hashes_follow_downloads(
    manifest: &Manifest,
    share: Seq<char>,
    vendor: Seq<char>,
    app_name: Seq<char>,
    b: MirrorBlock,
)
    requires
        plans_block(manifest, share, vendor, app_name, b),
    ensures
        ({
            let ds = manifest.resolve(b.arch)->Some_0.downloads;
            &&& b.hashes@.len() == ds.filter(hashed()).len()
            &&& forall|j: int|
                0 <= j < ds.len() && (#[trigger] ds[j]).hash is Some ==> b.hashes@[ds.subrange(0, j).filter(
                    hashed(),
                ).len() as int]@ == ds[j].hash->Some_0
            &&& (forall|j: int| 0 <= j < ds.len() ==> (#[trigger] ds[j]).hash is Some) ==> b.hashes@.len() == ds.len()
                && forall|j: int| 0 <= j < ds.len() ==> (#[trigger] b.hashes@[j])@ == ds[j].hash->Some_0
        }),
{
    let ds = manifest.resolve(b.arch)->Some_0.downloads;
    lemma_present_hashes_in_order(ds);
    assert(b.hashes.deep_view() == present_hashes(ds));
    assert forall|j: int| 0 <= j < b.hashes@.len() implies (#[trigger] b.hashes@[j])@ == present_hashes(ds)[j] by {
        assert(b.hashes.deep_view()[j] == b.hashes@[j]@);
    }
    if forall|j: int| 0 <= j < ds.len() ==> (#[trigger] ds[j]).hash is Some {
        lemma_filter_all(ds);
        assert forall|j: int| 0 <= j < ds.len() implies (#[trigger] b.hashes@[j])@ == ds[j].hash->Some_0 by {
            lemma_filter_all(ds.subrange(0, j));
            assert(ds.subrange(0, j).len() == j);
            assert(ds[j].hash is Some);
        }
    }
}

/// When every download is hashed, filtering by having a hash keeps all.
proof fn lemma_filter_all(ds: Seq<ResolvedDownloadV>)
    requires
        forall|j: int| 0 <= j < ds.len() ==> (#[trigger] ds[j]).hash is Some,
    ensures
        ds.filter(hashed()).len() == ds.len(),
    decreases ds.len(),
{
    reveal_with_fuel(Seq::filter, 1);
    if ds.len() > 0 {
        let d = ds.drop_last();
        assert forall|j: int| 0 <= j < d.len() implies (#[trigger] d[j]).hash is Some by {
            assert(d[j] == ds[j]);
        }
        lemma_filter_all(d);
        assert(ds[ds.len() - 1].hash is Some);
    }
}

/// Installing a mirrored architecture from the share checks each binary
/// against the hash its public download had: when every public download
/// of the architecture has a hash, the `j`-th download of the mirrored
/// manifest fetches the `j`-th share target and carries the hash of the
/// `j`-th public download.
pub proof fn lemma_mirrored_downloads_keep_hashes(
    old: &Manifest,
    new: &Manifest,
    blocks: Seq<MirrorBlock>,
    share: Seq<char>,
    vendor: Seq<char>,
    app_name: Seq<char>,
    i: int,
    j: int,
)
    requires
        rewritten(old, new, blocks),
        forall|k: int| 0 <= k < blocks.len() ==> plans_block(old, share, vendor, app_name, #[trigger] blocks[k]),
        0 <= i < blocks.len(),
        old.resolve(blocks[i].arch) is Some,
        forall|k: int|
            0 <= k < old.resolve(blocks[i].arch)->Some_0.downloads.len() ==> (#[trigger] old.resolve(
                blocks[i].arch,
            )->Some_0.downloads[k]).hash is Some,
        0 <= j < old.resolve(blocks[i].arch)->Some_0.downloads.len(),
    ensures
        new.resolve(blocks[i].arch) is Some,
        new.resolve(blocks[i].arch)->Some_0.downloads.len() == old.resolve(blocks[i].arch)->Some_0.downloads.len(),
        new.resolve(blocks[i].arch)->Some_0.downloads[j].download == crate::manifest::parse_download(
            block_targets(blocks[i])[j],
        ),
        new.resolve(blocks[i].arch)->Some_0.downloads[j].hash == old.resolve(blocks[i].arch)->Some_0.downloads[j].hash,
{
    let a = blocks[i].arch;
    let ds = old.resolve(a)->Some_0.downloads;
    lemma_mirrored_installs_from_share(old, new, blocks, share, vendor, app_name, a);
    assert(plans_block(old, share, vendor, app_name, blocks[i]));
    let targets = block_targets(blocks[i]);
    assert(targets.len() == ds.len());
    crate::manifest::lemma_downloads_pair_hashes(new, a, j);
    lemma_present_hashes_in_order(ds);
    lemma_filter_all(ds);
    lemma_filter_all(ds.subrange(0, j));
    assert(ds[j].hash is Some);
    let hs = items_of(new.block(a)->Some_0.hash.deep_view());
    assert(hs == present_hashes(ds));
    assert(new.block(a)->Some_0.hash is Some) by {
        if new.block(a)->Some_0.hash is None {
            assert(hs.len() == 0);
        }
    }
    assert(crate::manifest::hashes_for(new, a) == hs);
    crate::manifest::lemma_download_hash_at(new, a, j);
}

} // verus!
