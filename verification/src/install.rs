//! The decisions of `last install`, `update`, `remove` and `list`: what is
//! recorded for an installed version, which architecture is installed,
//! where everything goes, how each download is unpacked and what an
//! uninstall does, in order. The filesystem work is done by the caller.

use vstd::prelude::*;

use crate::dup::Dup;
use crate::error::{LastError, LastErrorV};
use crate::extract::{format_of, ExtractorRegistry};
use crate::manifest::{
    arch_key, items_of, Architecture, Manifest, ResolvedManifest, ScriptField, ScriptFieldV, ScriptSource,
};
use crate::path;
use crate::script::ScriptContext;
use crate::text;
use crate::text::Named;

verus! {

/// What is recorded for an installed version.
pub struct InstallState {
    pub bucket: String,
    pub version: String,
    pub architecture: String,
    /// The names of the shims created for it.
    pub shims: Vec<String>,
    pub persist: Vec<String>,
    /// The environment variables it sets, with their values.
    pub env_set: Vec<(String, String)>,
    pub env_add_path: Vec<String>,
}

impl Default for InstallState {
    fn default() -> (r: InstallState)
        ensures
            r.bucket@.len() == 0,
            r.version@.len() == 0,
            r.architecture@.len() == 0,
            r.shims@.len() == 0,
            r.persist@.len() == 0,
            r.env_set@.len() == 0,
            r.env_add_path@.len() == 0,
    {
        InstallState {
            bucket: String::new(),
            version: String::new(),
            architecture: String::new(),
            shims: Vec::new(),
            persist: Vec::new(),
            env_set: Vec::new(),
            env_add_path: Vec::new(),
        }
    }
}

/// An installed app, as `last list` shows it.
pub struct InstalledApp {
    pub name: String,
    pub version: String,
    pub bucket: String,
    pub architecture: String,
}

impl Named for InstalledApp {
    open spec fn name_view(&self) -> Seq<char> {
        self.name@
    }

    fn name_str(&self) -> (r: &str) {
        self.name.as_str()
    }
}

/// The installed apps ordered by name (a stable sort).
pub fn sort_installed(apps: Vec<InstalledApp>) -> (r: Vec<InstalledApp>)
    ensures
        r@ == text::sorted_by_insertion(apps@),
        r@.to_multiset() == apps@.to_multiset(),
        text::sorted_by_name(r@),
{
    text::sort_by_name(apps)
}

/// A package query and the version asked for: `<package>@<version>` when
/// the part after the first `@` is not empty, the whole text otherwise.
pub open spec fn package_spec(spec: Seq<char>) -> (Seq<char>, Option<Seq<char>>) {
    match text::split_once(spec, '@') {
        Some((name, version)) => if version.len() > 0 {
            (name, Some(version))
        } else {
            (spec, None)
        },
        None => (spec, None),
    }
}

/// Splits `<package>` or `<package>@<version>`.
pub fn parse_package_spec(spec: &str) -> (r: (String, Option<String>))
    ensures
        (r.0@, r.1.deep_view()) == package_spec(spec@),
{
    match text::split_once_exec(spec, '@') {
        Some((name, version)) => {
            if version.unicode_len() > 0 {
                (name, Some(version))
            } else {
                (String::from_str(spec), None)
            }
        },
        None => (String::from_str(spec), None),
    }
}

/// Refused when a version was asked for and the bucket provides another:
/// the error names the version asked for, the app, the bucket and the
/// version it provides.
pub fn check_requested_version(name: &str, bucket: &str, version: &str, requested: Option<&str>) -> (r: Result<
    (),
    LastError,
>)
    ensures
        match requested {
            Some(q) => if q@ == version@ {
                r is Ok
            } else {
                r matches Err(e) && e.deep_view() == LastErrorV::VersionNotAvailable(q@, name@, bucket@, version@)
            },
            None => r is Ok,
        },
{
    match requested {
        Some(q) => {
            if text::str_eq(q, version) {
                Ok(())
            } else {
                Err(
                    LastError::VersionNotAvailable(
                        String::from_str(q),
                        String::from_str(name),
                        String::from_str(bucket),
                        String::from_str(version),
                    ),
                )
            }
        },
        None => Ok(()),
    }
}

/// The app a dependency names: the part after the first `/` of
/// `<bucket>/<app>`, the whole text otherwise.
pub open spec fn dependency_app(dep: Seq<char>) -> Seq<char> {
    match text::split_once(dep, '/') {
        Some((_, app)) => app,
        None => dep,
    }
}

/// The app a dependency names.
pub fn dependency_name(dep: &str) -> (r: String)
    ensures
        r@ == dependency_app(dep@),
{
    match text::split_once_exec(dep, '/') {
        Some((_, app)) => app,
        None => String::from_str(dep),
    }
}

/// The architecture asked for: the `--arch` override, else the first
/// configured one (refused when it names none), else the host's.
pub open spec fn wanted_arch(over: Option<Architecture>, configured: Seq<Seq<char>>, host: Architecture) -> Result<
    Architecture,
    LastErrorV,
> {
    match over {
        Some(a) => Ok(a),
        None => if configured.len() > 0 {
            if exists|a: Architecture| arch_key(a) == configured[0] {
                Ok(choose|a: Architecture| arch_key(a) == configured[0])
            } else {
                Err(LastErrorV::UnknownArchitecture(configured[0]))
            }
        } else {
            Ok(host)
        },
    }
}

/// The architecture asked for, before checking the manifest.
pub fn wanted_architecture(over: Option<Architecture>, configured: &Vec<String>, host: Architecture) -> (r: Result<
    Architecture,
    LastError,
>)
    ensures
        match r {
            Ok(a) => wanted_arch(over, configured.deep_view(), host) == Ok::<Architecture, LastErrorV>(a),
            Err(e) => wanted_arch(over, configured.deep_view(), host) == Err::<Architecture, LastErrorV>(
                e.deep_view(),
            ),
        },
{
    match over {
        Some(a) => Ok(a),
        None => {
            if configured.len() > 0 {
                let r = Architecture::parse(configured[0].as_str());
                proof {
                    if let Ok(a) = r {
                        let c = choose|b: Architecture| arch_key(b) == configured@[0]@;
                        crate::manifest::lemma_arch_key_injective(a, c);
                    }
                }
                r
            } else {
                Ok(host)
            }
        },
    }
}

/// The architecture to install `manifest` for: the one asked for, refused
/// (naming the app, the architecture and those the manifest provides)
/// when the manifest does not provide it.
pub fn resolve_architecture(manifest: &Manifest, over: Option<Architecture>, configured: &Vec<String>, host: Architecture) -> (r:
    Result<Architecture, LastError>)
    ensures
        match wanted_arch(over, configured.deep_view(), host) {
            Ok(a) => if manifest.resolve(a) is Some {
                r == Ok::<Architecture, LastError>(a)
            } else {
                r matches Err(e) && e.deep_view() == LastErrorV::ArchitectureNotSupported(
                    manifest.name@,
                    arch_key(a),
                    text::join(manifest.available_keys(), ", "@),
                )
            },
            Err(ev) => r matches Err(e) && e.deep_view() == ev,
        },
{
    let arch = match wanted_architecture(over, configured, host) {
        Ok(a) => a,
        Err(e) => {
            return Err(e);
        },
    };
    if manifest.resolved(arch).is_ok() {
        return Ok(arch);
    }
    let keys = manifest.available_architectures();
    let mut names: Vec<String> = Vec::new();
    let mut k: usize = 0;
    while k < keys.len()
        invariant
            k <= keys@.len(),
            text::views(names@) == keys@.map_values(|s: &str| s@).subrange(0, k as int),
        decreases keys@.len() - k,
    {
        let ghost before = names@;
        let name = String::from_str(keys[k]);
        names.push(name);
        proof {
            assert(names@ == before.push(name));
            assert(text::views(names@) =~= text::views(before).push(name@));
            assert(text::views(names@) =~= keys@.map_values(|s: &str| s@).subrange(0, k + 1));
        }
        k = k + 1;
    }
    proof {
        assert(keys@.map_values(|s: &str| s@).subrange(0, keys@.len() as int) == keys@.map_values(|s: &str| s@));
    }
    let available = text::join_exec(&names, ", ");
    Err(LastError::ArchitectureNotSupported(String::from_str(manifest.name.as_str()), String::from_str(arch.key()), available))
}

/// The architecture recorded for an installed version, or the host's when
/// the record names none.
pub open spec fn recorded_arch(recorded: Seq<char>, host: Architecture) -> Architecture {
    if exists|a: Architecture| arch_key(a) == recorded {
        choose|a: Architecture| arch_key(a) == recorded
    } else {
        host
    }
}

/// The architecture of an installed version.
pub fn recorded_architecture(recorded: &str, host: Architecture) -> (r: Architecture)
    ensures
        r == recorded_arch(recorded@, host),
{
    match Architecture::parse(recorded) {
        Ok(a) => {
            proof {
                let c = choose|b: Architecture| arch_key(b) == recorded@;
                crate::manifest::lemma_arch_key_injective(a, c);
            }
            a
        },
        Err(_) => host,
    }
}

/// The architecture an update installs: the override, else the recorded
/// one.
pub fn update_architecture(over: Option<Architecture>, recorded: &str, host: Architecture) -> (r: Architecture)
    ensures
        r == match over {
            Some(a) => a,
            None => recorded_arch(recorded@, host),
        },
{
    match over {
        Some(a) => a,
        None => recorded_architecture(recorded, host),
    }
}

/// The bucket query an update looks in first: `<bucket>/<app>`.
pub fn update_query(bucket: &str, app: &str) -> (r: String)
    ensures
        r@ == bucket@ + seq!['/'] + app@,
{
    let mut q = String::from_str(bucket);
    q.append("/");
    q.append(app);
    proof {
        reveal_strlit("/");
        assert(q@ =~= bucket@ + seq!['/'] + app@);
    }
    q
}

/// `apps` under the root.
pub open spec fn apps_dir(root: Seq<char>) -> Seq<char> {
    path::join(root, "apps"@)
}

/// The directory of an app.
pub open spec fn app_dir(root: Seq<char>, app: Seq<char>) -> Seq<char> {
    path::join(apps_dir(root), app)
}

/// The `current` link of an app.
pub open spec fn current_dir(root: Seq<char>, app: Seq<char>) -> Seq<char> {
    path::join(app_dir(root, app), "current"@)
}

/// The directory of an installed version.
pub open spec fn version_dir(root: Seq<char>, app: Seq<char>, version: Seq<char>) -> Seq<char> {
    path::join(app_dir(root, app), version)
}

/// The metadata file of an installed version, `<version>.meta.json` beside
/// its directory.
pub open spec fn meta_path(root: Seq<char>, app: Seq<char>, version: Seq<char>) -> Seq<char> {
    path::join(app_dir(root, app), version + ".meta.json"@)
}

/// Where the directories of the LAST installation at a root are.
pub struct InstallLayout {
    pub root: String,
}

impl InstallLayout {
    pub fn new(root: &str) -> (r: InstallLayout)
        ensures
            r.root@ == root@,
    {
        InstallLayout { root: String::from_str(root) }
    }

    /// `apps` under the root.
    pub fn apps_dir(&self) -> (r: String)
        ensures
            r@ == apps_dir(self.root@),
    {
        path::join_exec(self.root.as_str(), "apps")
    }

    /// The directory of an app.
    pub fn app_dir(&self, app: &str) -> (r: String)
        ensures
            r@ == app_dir(self.root@, app@),
    {
        let a = self.apps_dir();
        path::join_exec(a.as_str(), app)
    }

    /// The `current` link of an app.
    pub fn current_dir(&self, app: &str) -> (r: String)
        ensures
            r@ == current_dir(self.root@, app@),
    {
        let a = self.app_dir(app);
        path::join_exec(a.as_str(), "current")
    }

    /// The directory of an installed version.
    pub fn version_dir(&self, app: &str, version: &str) -> (r: String)
        ensures
            r@ == version_dir(self.root@, app@, version@),
    {
        let a = self.app_dir(app);
        path::join_exec(a.as_str(), version)
    }

    /// The metadata file of an installed version.
    pub fn meta_path(&self, app: &str, version: &str) -> (r: String)
        ensures
            r@ == meta_path(self.root@, app@, version@),
    {
        let a = self.app_dir(app);
        let mut f = String::from_str(version);
        f.append(".meta.json");
        path::join_exec(a.as_str(), f.as_str())
    }

    /// The download cache.
    pub fn cache_dir(&self) -> (r: String)
        ensures
            r@ == path::join(self.root@, "cache"@),
    {
        path::join_exec(self.root.as_str(), "cache")
    }

    /// The variables a script of `app` sees.
    pub fn script_context(&self, app: &str, version: &str, dir: &str, persist_dir: &str, arch: Architecture) -> (r:
        ScriptContext)
        ensures
            r.dir@ == dir@,
            r.persist_dir@ == persist_dir@,
            r.version@ == version@,
            r.app@ == app@,
            r.architecture@ == arch_key(arch),
            r.last_root@ == self.root@,
            !r.global,
    {
        ScriptContext {
            dir: String::from_str(dir),
            persist_dir: String::from_str(persist_dir),
            version: String::from_str(version),
            app: String::from_str(app),
            architecture: String::from_str(arch.key()),
            last_root: self.root.clone(),
            global: false,
        }
    }
}

/// What is recorded for a version just installed from `bucket`: its
/// version and architecture, its persisted entries and the environment it
/// sets; no shims yet.
pub fn new_install_state(bucket: &str, manifest: &Manifest, arch: Architecture, resolved: &ResolvedManifest) -> (r:
    InstallState)
    ensures
        r.bucket@ == bucket@,
        r.version@ == manifest.version@,
        r.architecture@ == arch_key(arch),
        r.shims@.len() == 0,
        r.persist.deep_view() == items_of(manifest.persist.deep_view()),
        r.env_set.deep_view() == resolved.env_set.deep_view(),
        r.env_add_path.deep_view() == resolved.env_add_path.deep_view(),
{
    InstallState {
        bucket: String::from_str(bucket),
        version: manifest.version.clone(),
        architecture: String::from_str(arch.key()),
        shims: Vec::new(),
        persist: manifest.persist_entries(),
        env_set: resolved.env_set.dup(),
        env_add_path: resolved.env_add_path.dup(),
    }
}

/// How one downloaded file is put into the version directory.
pub enum DownloadAction {
    /// Unpack into `temp_dir`, then move what is in `source_dir` into
    /// `dest_dir` (created first when `create_dest`) and remove `temp_dir`.
    Extract { temp_dir: String, source_dir: String, dest_dir: String, create_dest: bool },
    /// Copy the file, a portable executable, to `dest`.
    CopyExecutable { dest: String },
}

/// `.extract-<i>` in the version directory.
pub open spec fn extract_temp(version_dir: Seq<char>, i: nat) -> Seq<char> {
    path::join(version_dir, ".extract-"@ + text::decimal(i))
}

/// How the `i`-th download, saved as `file_name`, is put into
/// `version_dir`: an archive (by its lower-case name) is unpacked, its
/// `extract_dir` moved into `extract_to` (or the version directory); a
/// `.exe` (any case) is copied; anything else is refused, naming the file.
pub fn download_action(
    registry: &ExtractorRegistry,
    version_dir: &str,
    i: usize,
    file_name: &str,
    extract_dir: Option<&str>,
    extract_to: Option<&str>,
) -> (r: Result<DownloadAction, LastError>)
    ensures
        format_of(text::lower(file_name@)) is Some ==> (r matches Ok(DownloadAction::Extract { temp_dir, source_dir, dest_dir, create_dest }) && {
            &&& temp_dir@ == extract_temp(version_dir@, i as nat)
            &&& source_dir@ == match extract_dir {
                Some(d) => path::join(temp_dir@, d@),
                None => temp_dir@,
            }
            &&& dest_dir@ == match extract_to {
                Some(t) => path::join(version_dir@, t@),
                None => version_dir@,
            }
            &&& create_dest == extract_to is Some
        }),
        format_of(text::lower(file_name@)) is None && text::ends_with(text::lower(file_name@), ".exe"@) ==> (r matches Ok(DownloadAction::CopyExecutable { dest }) && dest@ == path::join(version_dir@, file_name@)),
        format_of(text::lower(file_name@)) is None && !text::ends_with(text::lower(file_name@), ".exe"@) ==> (r matches Err(e) && e.deep_view() == LastErrorV::UnsupportedArchiveFormat(file_name@)),
{
    if registry.is_supported(file_name) {
        let mut name = String::from_str(".extract-");
        let digits = text::decimal_exec(i);
        name.append(digits.as_str());
        let temp_dir = path::join_exec(version_dir, name.as_str());
        let source_dir = match extract_dir {
            Some(d) => path::join_exec(temp_dir.as_str(), d),
            None => temp_dir.clone(),
        };
        let (dest_dir, create_dest) = match extract_to {
            Some(t) => (path::join_exec(version_dir, t), true),
            None => (String::from_str(version_dir), false),
        };
        Ok(DownloadAction::Extract { temp_dir, source_dir, dest_dir, create_dest })
    } else {
        let l = text::lower_exec(file_name);
        if text::ends_with_exec(l.as_str(), ".exe") {
            Ok(DownloadAction::CopyExecutable { dest: path::join_exec(version_dir, file_name) })
        } else {
            Err(LastError::UnsupportedArchiveFormat(String::from_str(file_name)))
        }
    }
}

/// The `PATH` entries of an installed app: each entry under its `current`
/// link.
pub fn path_entries_under(current_dir: &str, entries: &Vec<String>) -> (r: Vec<String>)
    ensures
        r@.len() == entries@.len(),
        forall|i: int| 0 <= i < entries@.len() ==> (#[trigger] r@[i])@ == path::join(current_dir@, entries@[i]@),
{
    let mut r: Vec<String> = Vec::new();
    let mut i: usize = 0;
    while i < entries.len()
        invariant
            i <= entries@.len(),
            r@.len() == i,
            forall|j: int| 0 <= j < i ==> (#[trigger] r@[j])@ == path::join(current_dir@, entries@[j]@),
        decreases entries@.len() - i,
    {
        r.push(path::join_exec(current_dir, entries[i].as_str()));
        i = i + 1;
    }
    r
}

/// The version directories of an app whose persisted entries are unlinked
/// before the app is removed: the subdirectories (given as name and
/// whether it is a directory) other than the `current` link, in order.
pub open spec fn unlinked_dirs(app_dir: Seq<char>, entries: Seq<(Seq<char>, bool)>) -> Seq<Seq<char>>
    decreases entries.len(),
{
    if entries.len() == 0 {
        Seq::empty()
    } else {
        let rest = unlinked_dirs(app_dir, entries.drop_last());
        let (name, is_dir) = entries.last();
        if name != "current"@ && is_dir {
            rest.push(path::join(app_dir, name))
        } else {
            rest
        }
    }
}

/// The version directories to unlink persisted data from before an app's
/// directory is removed.
pub fn dirs_to_unlink(app_dir: &str, entries: &Vec<(String, bool)>) -> (r: Vec<String>)
    ensures
        text::views(r@) == unlinked_dirs(app_dir@, entries@.map_values(|e: (String, bool)| (e.0@, e.1))),
{
    let ghost es = entries@.map_values(|e: (String, bool)| (e.0@, e.1));
    let mut r: Vec<String> = Vec::new();
    let mut i: usize = 0;
    while i < entries.len()
        invariant
            i <= entries@.len(),
            es == entries@.map_values(|e: (String, bool)| (e.0@, e.1)),
            text::views(r@) == unlinked_dirs(app_dir@, es.subrange(0, i as int)),
        decreases entries@.len() - i,
    {
        proof {
            assert(es.subrange(0, i + 1).drop_last() == es.subrange(0, i as int));
        }
        let (name, is_dir) = (&entries[i].0, entries[i].1);
        if !text::str_eq(name.as_str(), "current") && is_dir {
            let ghost before = r@;
            let p = path::join_exec(app_dir, name.as_str());
            r.push(p);
            proof {
                assert(text::views(r@) =~= text::views(before).push(p@));
            }
        }
        i = i + 1;
    }
    proof {
        assert(es.subrange(0, es.len() as int) == es);
    }
    r
}

/// One step of an uninstall before the app's files are removed.
pub enum UninstallStep {
    /// Run a script (the `pre_uninstall`, then the `post_uninstall` one).
    RunScript(ScriptSource),
    /// Remove the shim with this name.
    RemoveShim(String),
    /// Remove this environment variable.
    UnsetEnv(String),
    /// Remove this entry from the user `PATH`.
    RemovePathEntry(String),
}

/// The mathematical form of an [`UninstallStep`]; a script is given by
/// its field and the directory its file is looked up in.
pub enum UninstallStepV {
    RunScript(ScriptFieldV, Seq<char>),
    RemoveShim(Seq<char>),
    UnsetEnv(Seq<char>),
    RemovePathEntry(Seq<char>),
}

/// `s` is the step `v`: for a script, the script `v` names resolved as
/// [`ScriptField::resolve`] resolves it.
pub open spec fn is_step(s: UninstallStep, v: UninstallStepV) -> bool {
    match (s, v) {
        (UninstallStep::RunScript(src), UninstallStepV::RunScript(field, base)) => match field {
            ScriptFieldV::Inline(lines) => src matches ScriptSource::Text(t) && t@ == text::join(lines.items(), seq!['\n']),
            ScriptFieldV::File(f) => src matches ScriptSource::File(p) && p@ == path::join(base, f),
        },
        (UninstallStep::RemoveShim(a), UninstallStepV::RemoveShim(b)) => a@ == b,
        (UninstallStep::UnsetEnv(a), UninstallStepV::UnsetEnv(b)) => a@ == b,
        (UninstallStep::RemovePathEntry(a), UninstallStepV::RemovePathEntry(b)) => a@ == b,
        _ => false,
    }
}

/// The steps of an uninstall, in order: the `pre_uninstall` script, the
/// removal of each shim, of each variable the app set, of each `PATH`
/// entry it added (under its `current` link), and the `post_uninstall`
/// script.
pub open spec fn uninstall_plan(
    state: &InstallState,
    resolved: &ResolvedManifest,
    current_dir: Seq<char>,
    scripts_dir: Seq<char>,
) -> Seq<UninstallStepV> {
    (match resolved.pre_uninstall.deep_view() {
        Some(f) => seq![UninstallStepV::RunScript(f, scripts_dir)],
        None => Seq::empty(),
    }) + state.shims.deep_view().map_values(|n: Seq<char>| UninstallStepV::RemoveShim(n))
        + state.env_set@.map_values(|e: (String, String)| UninstallStepV::UnsetEnv(e.0@))
        + state.env_add_path.deep_view().map_values(
        |e: Seq<char>| UninstallStepV::RemovePathEntry(path::join(current_dir, e)),
    ) + (match resolved.post_uninstall.deep_view() {
        Some(f) => seq![UninstallStepV::RunScript(f, scripts_dir)],
        None => Seq::empty(),
    })
}

fn push_script(out: &mut Vec<UninstallStep>, field: &Option<ScriptField>, scripts_dir: &str)
    ensures
        match field.deep_view() {
            Some(f) => final(out)@.len() == old(out)@.len() + 1 && final(out)@.subrange(0, old(out)@.len() as int)
                == old(out)@ && is_step(final(out)@.last(), UninstallStepV::RunScript(f, scripts_dir@)),
            None => final(out)@ == old(out)@,
        },
{
    match field {
        Some(f) => {
            let src = f.resolve(scripts_dir);
            out.push(UninstallStep::RunScript(src));
            proof {
                assert(final(out)@.subrange(0, old(out)@.len() as int) =~= old(out)@);
            }
        },
        None => {},
    }
}

/// The steps of uninstalling the version recorded in `state`, whose
/// manifest resolved to `resolved`; scripts given as files are read from
/// `scripts_dir`.
pub fn uninstall_steps(state: &InstallState, resolved: &ResolvedManifest, current_dir: &str, scripts_dir: &str) -> (r:
    Vec<UninstallStep>)
    ensures
        r@.len() == uninstall_plan(state, resolved, current_dir@, scripts_dir@).len(),
        forall|i: int|
            0 <= i < r@.len() ==> is_step(#[trigger] r@[i], uninstall_plan(state, resolved, current_dir@, scripts_dir@)[i]),
{
    let ghost plan = uninstall_plan(state, resolved, current_dir@, scripts_dir@);
    let ghost pre = match resolved.pre_uninstall.deep_view() {
        Some(f) => seq![UninstallStepV::RunScript(f, scripts_dir@)],
        None => Seq::<UninstallStepV>::empty(),
    };
    let ghost shims = state.shims.deep_view().map_values(|n: Seq<char>| UninstallStepV::RemoveShim(n));
    let ghost envs = state.env_set@.map_values(|e: (String, String)| UninstallStepV::UnsetEnv(e.0@));
    let ghost paths = state.env_add_path.deep_view().map_values(
        |e: Seq<char>| UninstallStepV::RemovePathEntry(path::join(current_dir@, e)),
    );
    let mut out: Vec<UninstallStep> = Vec::new();
    push_script(&mut out, &resolved.pre_uninstall, scripts_dir);
    let mut i: usize = 0;
    while i < state.shims.len()
        invariant
            i <= state.shims@.len(),
            out@.len() == pre.len() + i,
            forall|j: int| 0 <= j < out@.len() ==> is_step(#[trigger] out@[j], (pre + shims)[j]),
            shims == state.shims.deep_view().map_values(|n: Seq<char>| UninstallStepV::RemoveShim(n)),
        decreases state.shims@.len() - i,
    {
        out.push(UninstallStep::RemoveShim(state.shims[i].clone()));
        i = i + 1;
    }
    let mut i: usize = 0;
    while i < state.env_set.len()
        invariant
            i <= state.env_set@.len(),
            out@.len() == pre.len() + shims.len() + i,
            forall|j: int| 0 <= j < out@.len() ==> is_step(#[trigger] out@[j], (pre + shims + envs)[j]),
            envs == state.env_set@.map_values(|e: (String, String)| UninstallStepV::UnsetEnv(e.0@)),
        decreases state.env_set@.len() - i,
    {
        out.push(UninstallStep::UnsetEnv(state.env_set[i].0.clone()));
        i = i + 1;
    }
    let mut i: usize = 0;
    while i < state.env_add_path.len()
        invariant
            i <= state.env_add_path@.len(),
            out@.len() == pre.len() + shims.len() + envs.len() + i,
            forall|j: int| 0 <= j < out@.len() ==> is_step(#[trigger] out@[j], (pre + shims + envs + paths)[j]),
            paths == state.env_add_path.deep_view().map_values(
                |e: Seq<char>| UninstallStepV::RemovePathEntry(path::join(current_dir@, e)),
            ),
        decreases state.env_add_path@.len() - i,
    {
        out.push(UninstallStep::RemovePathEntry(path::join_exec(current_dir, state.env_add_path[i].as_str())));
        i = i + 1;
    }
    let ghost mid = out@;
    push_script(&mut out, &resolved.post_uninstall, scripts_dir);
    proof {
        assert(plan =~= pre + shims + envs + paths + match resolved.post_uninstall.deep_view() {
            Some(f) => seq![UninstallStepV::RunScript(f, scripts_dir@)],
            None => Seq::<UninstallStepV>::empty(),
        });
        assert forall|i: int| 0 <= i < out@.len() implies is_step(#[trigger] out@[i], plan[i]) by {
            if i < mid.len() {
                assert(out@[i] == mid[i]);
            }
        }
    }
    out
}

/// What removes an app once its uninstall steps are done.
pub enum RemovalStep {
    /// Remove the app's directory.
    RemoveAppDir(String),
    /// Delete the app's persisted data.
    PurgePersist(String),
}

/// The last steps of `last remove`: the app's directory goes; its
/// persisted data only with `--purge`.
pub fn removal_steps(app_dir: &str, persist_dir: &str, purge: bool) -> (r: Vec<RemovalStep>)
    ensures
        purge ==> r@.len() == 2,
        !purge ==> r@.len() == 1,
        r@[0] matches RemovalStep::RemoveAppDir(d) && d@ == app_dir@,
        purge ==> (r@[1] matches RemovalStep::PurgePersist(d) && d@ == persist_dir@),
{
    let mut r: Vec<RemovalStep> = Vec::new();
    r.push(RemovalStep::RemoveAppDir(String::from_str(app_dir)));
    if purge {
        r.push(RemovalStep::PurgePersist(String::from_str(persist_dir)));
    }
    r
}

/// An uninstall removes from `PATH` exactly the entries that activating
/// the version added: the `i`-th `PATH` step of the uninstall is the `i`-th
/// entry of [`path_entries_under`] for the same `current` link.
pub proof fn lemma_uninstall_removes_added_entries(
    state: &InstallState,
    resolved: &ResolvedManifest,
    current_dir: Seq<char>,
    scripts_dir: Seq<char>,
    i: int,
)
    requires
        0 <= i < state.env_add_path@.len(),
    ensures
        ({
            let pre = if resolved.pre_uninstall is Some { 1int } else { 0int };
            let k = pre + state.shims@.len() + state.env_set@.len() + i;
            uninstall_plan(state, resolved, current_dir, scripts_dir)[k] == UninstallStepV::RemovePathEntry(
                path::join(current_dir, state.env_add_path@[i]@),
            )
        }),
{
    let pre = match resolved.pre_uninstall.deep_view() {
        Some(f) => seq![UninstallStepV::RunScript(f, scripts_dir)],
        None => Seq::<UninstallStepV>::empty(),
    };
    let shims = state.shims.deep_view().map_values(|n: Seq<char>| UninstallStepV::RemoveShim(n));
    let envs = state.env_set@.map_values(|e: (String, String)| UninstallStepV::UnsetEnv(e.0@));
    let paths = state.env_add_path.deep_view().map_values(
        |e: Seq<char>| UninstallStepV::RemovePathEntry(path::join(current_dir, e)),
    );
    let post = match resolved.post_uninstall.deep_view() {
        Some(f) => seq![UninstallStepV::RunScript(f, scripts_dir)],
        None => Seq::<UninstallStepV>::empty(),
    };
    let plan = uninstall_plan(state, resolved, current_dir, scripts_dir);
    assert(plan == pre + shims + envs + paths + post);
    let k = pre.len() + shims.len() + envs.len() + i;
    assert(plan[k] == paths[i]);
}

/// An uninstall removes exactly the recorded shims, each once and in the
/// recorded order: after the `pre_uninstall` script (when there is one),
/// the `j`-th step removes the `j`-th recorded shim, and no other step
/// removes a shim.
pub proof fn lemma_uninstall_removes_each_shim(
    state: &InstallState,
    resolved: &ResolvedManifest,
    current_dir: Seq<char>,
    scripts_dir: Seq<char>,
)
    ensures
        ({
            let plan = uninstall_plan(state, resolved, current_dir, scripts_dir);
            let first = if resolved.pre_uninstall is Some { 1int } else { 0int };
            &&& forall|j: int|
                0 <= j < state.shims@.len() ==> plan[first + j] == UninstallStepV::RemoveShim(
                    (#[trigger] state.shims@[j])@,
                )
            &&& forall|k: int|
                0 <= k < plan.len() && (#[trigger] plan[k]) is RemoveShim ==> first <= k < first + state.shims@.len()
        }),
{
    let plan = uninstall_plan(state, resolved, current_dir, scripts_dir);
    let first = if resolved.pre_uninstall is Some { 1int } else { 0int };
    let front = match resolved.pre_uninstall.deep_view() {
        Some(f) => seq![UninstallStepV::RunScript(f, scripts_dir)],
        None => Seq::<UninstallStepV>::empty(),
    };
    let removals = state.shims.deep_view().map_values(|n: Seq<char>| UninstallStepV::RemoveShim(n));
    let unsets = state.env_set@.map_values(|e: (String, String)| UninstallStepV::UnsetEnv(e.0@));
    let entries = state.env_add_path.deep_view().map_values(
        |e: Seq<char>| UninstallStepV::RemovePathEntry(path::join(current_dir, e)),
    );
    let back = match resolved.post_uninstall.deep_view() {
        Some(f) => seq![UninstallStepV::RunScript(f, scripts_dir)],
        None => Seq::<UninstallStepV>::empty(),
    };
    assert(plan == front + removals + unsets + entries + back);
    assert(front.len() == first);
    assert forall|j: int| 0 <= j < state.shims@.len() implies plan[first + j] == UninstallStepV::RemoveShim(
        (#[trigger] state.shims@[j])@,
    ) by {
        assert(plan[first + j] == removals[j]);
        assert(state.shims.deep_view()[j] == state.shims@[j]@);
    }
    assert forall|k: int| 0 <= k < plan.len() && (#[trigger] plan[k]) is RemoveShim implies first <= k < first
        + state.shims@.len() by {
        let a = front.len();
        let b = a + removals.len();
        let c = b + unsets.len();
        let d = c + entries.len();
        if k < a {
            assert(plan[k] == front[k]);
        } else if k >= b && k < c {
            assert(plan[k] == unsets[k - b]);
        } else if k >= c && k < d {
            assert(plan[k] == entries[k - c]);
        } else if k >= d {
            assert(plan[k] == back[k - d]);
        }
    }
}

} // verus!
