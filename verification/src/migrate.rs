//! `last migrate --from-scoop`: registering the apps of a Scoop
//! installation without copying them. This module decides which apps are
//! taken, where their links go and what is recorded; creating the links and
//! reading Scoop's files is left to the caller.

use vstd::prelude::*;

use crate::install::{recorded_arch, recorded_architecture, InstallState};
use crate::manifest::{arch_key, items_of, Architecture, Manifest};
use crate::path;
use crate::text;
use crate::ui::Ui;

verus! {

/// Migrates a Scoop installation at `scoop_root` into the LAST
/// installation at `last_root`.
pub struct Migrator {
    pub last_root: String,
    pub scoop_root: String,
    pub ui: Ui,
}

/// Everything a migration of one app does: the version found, the links
/// to create, and what is recorded.
pub struct MigrationPlan {
    pub version: String,
    /// `apps\<app>` under the LAST root.
    pub app_dir: String,
    /// The link `apps\<app>\<version>`, to Scoop's version directory.
    pub version_dir: String,
    /// The link `apps\<app>\current`, to the version link.
    pub current_dir: String,
    /// Scoop's persist directory and the link to it in the LAST store,
    /// when it is linked.
    pub persist_link: Option<(String, String)>,
    /// The LAST persist store.
    pub persist_root: String,
    pub state: InstallState,
    pub meta_path: String,
}

/// Scoop's own bootstrap app is never migrated.
pub open spec fn migrated_app(name: Seq<char>) -> bool {
    !text::eq_ignore_case(name, "scoop"@)
}

/// The version of a Scoop app: the name of the directory its `current`
/// link resolves to, `unknown` when it has none.
pub open spec fn scoop_version(real_dir: Seq<char>) -> Seq<char> {
    match path::file_name(real_dir) {
        Some(n) => n,
        None => "unknown"@,
    }
}

impl Migrator {
    pub fn new(last_root: &str, scoop_root: &str, ui: Ui) -> (r: Migrator)
        ensures
            r.last_root@ == last_root@,
            r.scoop_root@ == scoop_root@,
            r.ui == ui,
    {
        Migrator { last_root: String::from_str(last_root), scoop_root: String::from_str(scoop_root), ui }
    }

    /// Scoop's `apps` directory.
    pub fn scoop_apps_dir(&self) -> (r: String)
        ensures
            r@ == path::join(self.scoop_root@, "apps"@),
    {
        path::join_exec(self.scoop_root.as_str(), "apps")
    }

    /// Scoop's `current` link of `app`.
    pub fn scoop_current(&self, app: &str) -> (r: String)
        ensures
            r@ == path::join(path::join(path::join(self.scoop_root@, "apps"@), app@), "current"@),
    {
        let a = self.scoop_apps_dir();
        let b = path::join_exec(a.as_str(), app);
        path::join_exec(b.as_str(), "current")
    }

    /// Scoop's persist directory of `app`.
    pub fn scoop_persist(&self, app: &str) -> (r: String)
        ensures
            r@ == path::join(path::join(self.scoop_root@, "persist"@), app@),
    {
        let a = path::join_exec(self.scoop_root.as_str(), "persist");
        path::join_exec(a.as_str(), app)
    }

    /// The LAST persist directory of `app`.
    pub fn last_persist(&self, app: &str) -> (r: String)
        ensures
            r@ == path::join(path::join(self.last_root@, "persist"@), app@),
    {
        let a = path::join_exec(self.last_root.as_str(), "persist");
        path::join_exec(a.as_str(), app)
    }

    /// The migration of `app`, whose Scoop `current` link resolves to
    /// `real_dir`. `manifest` is Scoop's copy of its manifest, `bucket` and
    /// `architecture` what Scoop recorded; `scoop_persist_exists` and
    /// `last_persist_exists` say whether the two persist directories exist.
    /// The persisted data is linked when the manifest persists something,
    /// Scoop has it and LAST has none yet. The recorded bucket is Scoop's,
    /// else `migrated`; the architecture Scoop's, else the host's.
    pub fn plan(
        &self,
        app: &str,
        real_dir: &str,
        manifest: &Option<Manifest>,
        bucket: Option<&str>,
        architecture: Option<&str>,
        host: Architecture,
        scoop_persist_exists: bool,
        last_persist_exists: bool,
    ) -> (r: MigrationPlan)
        ensures
            ({
                let version = scoop_version(real_dir@);
                let app_dir = path::join(path::join(self.last_root@, "apps"@), app@);
                let entries = match manifest {
                    Some(m) => items_of(m.persist.deep_view()),
                    None => Seq::empty(),
                };
                &&& r.version@ == version
                &&& r.app_dir@ == app_dir
                &&& r.version_dir@ == path::join(app_dir, version)
                &&& r.current_dir@ == path::join(app_dir, "current"@)
                &&& r.persist_root@ == path::join(self.last_root@, "persist"@)
                &&& r.meta_path@ == path::join(app_dir, version + ".meta.json"@)
                &&& if entries.len() > 0 && scoop_persist_exists && !last_persist_exists {
                    r.persist_link matches Some((s, l)) && s@ == path::join(path::join(self.scoop_root@, "persist"@), app@)
                        && l@ == path::join(path::join(self.last_root@, "persist"@), app@)
                } else {
                    r.persist_link is None
                }
                &&& r.state.bucket@ == match bucket {
                    Some(b) => b@,
                    None => "migrated"@,
                }
                &&& r.state.version@ == version
                &&& r.state.architecture@ == arch_key(
                    match architecture {
                        Some(a) => recorded_arch(a@, host),
                        None => host,
                    },
                )
                &&& r.state.shims@.len() == 0
                &&& r.state.persist.deep_view() == entries
                &&& r.state.env_set@.len() == 0
                &&& r.state.env_add_path@.len() == 0
            }),
    {
        let version = match path::file_name_exec(real_dir) {
            Some(n) => n,
            None => String::from_str("unknown"),
        };
        let a = path::join_exec(self.last_root.as_str(), "apps");
        let app_dir = path::join_exec(a.as_str(), app);
        let version_dir = path::join_exec(app_dir.as_str(), version.as_str());
        let current_dir = path::join_exec(app_dir.as_str(), "current");
        let persist: Vec<String> = match manifest {
            Some(m) => m.persist_entries(),
            None => {
                let v: Vec<String> = Vec::new();
                proof {
                    assert(v.deep_view() =~= Seq::<Seq<char>>::empty());
                }
                v
            },
        };
        let persist_link = if persist.len() > 0 && scoop_persist_exists && !last_persist_exists {
            Some((self.scoop_persist(app), self.last_persist(app)))
        } else {
            None
        };
        let arch = match architecture {
            Some(x) => recorded_architecture(x, host),
            None => host,
        };
        let mut meta_name = version.clone();
        meta_name.append(".meta.json");
        let meta_path = path::join_exec(app_dir.as_str(), meta_name.as_str());
        let state = InstallState {
            bucket: match bucket {
                Some(b) => String::from_str(b),
                None => String::from_str("migrated"),
            },
            version: version.clone(),
            architecture: String::from_str(arch.key()),
            shims: Vec::new(),
            persist,
            env_set: Vec::new(),
            env_add_path: Vec::new(),
        };
        MigrationPlan {
            version,
            app_dir,
            version_dir,
            current_dir,
            persist_link,
            persist_root: path::join_exec(self.last_root.as_str(), "persist"),
            state,
            meta_path,
        }
    }
}

/// Whether an entry of Scoop's `apps` directory is migrated.
pub fn migrates(name: &str) -> (r: bool)
    ensures
        r == migrated_app(name@),
{
    !text::eq_ignore_case_exec(name, "scoop")
}

/// The manifest recorded for a migrated app: Scoop's copy named after the
/// app, or an empty manifest when Scoop has none.
pub fn migrated_manifest(manifest: Option<Manifest>, app: &str) -> (r: Manifest)
    ensures
        match manifest {
            Some(m) => r == (Manifest { name: r.name, ..m }) && r.name@ == app@,
            None => r.blank(),
        },
        (manifest matches Some(m) ==> m.wf()) ==> r.wf(),
{
    match manifest {
        Some(m) => Manifest::renamed(m, app),
        None => Manifest::default(),
    }
}

} // verus!
