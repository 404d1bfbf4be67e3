//! Persisted data: the entries of a manifest's `persist` field live in
//! `persist\<app>` under the LAST root and are linked into each installed
//! version. This module decides the paths and what to do with each entry;
//! the filesystem work is done by the caller.

use vstd::prelude::*;

use crate::path;

verus! {

/// The persist store of a LAST installation.
pub struct PersistManager {
    root: String,
}

/// An entry that names a file rather than a directory: one whose last
/// component has a non-empty extension.
pub open spec fn names_file(entry: Seq<char>) -> bool {
    path::extension(entry) matches Some(e) && e.len() > 0
}

/// Whether a persist entry names a file (it has an extension) rather than
/// a directory.
pub fn looks_like_file(entry: &str) -> (r: bool)
    ensures
        r == names_file(entry@),
{
    match path::extension_exec(entry) {
        Some(e) => e.unicode_len() > 0,
        None => false,
    }
}

/// What is done with an entry before it is linked.
#[derive(Debug, Clone, Copy, PartialEq, Eq, Structural)]
pub enum Prepare {
    /// The store has the entry: the freshly extracted copy is removed.
    DropInstalled,
    /// Only the store has the entry: nothing to do.
    Keep,
    /// Only the install has the entry (first install): it is moved into
    /// the store.
    MoveToStore,
    /// Neither has it: an empty file is created in the store.
    CreateFile,
    /// Neither has it: an empty directory is created in the store.
    CreateDir,
}

/// How one persist entry is linked: the path in the store, the path in the
/// install directory, and what is done first.
pub struct PersistLink {
    pub persisted: String,
    pub installed: String,
    pub prepare: Prepare,
}

/// What is done with an entry before it is linked, given whether it
/// exists in the store and in the install directory.
pub open spec fn prepare_for(entry: Seq<char>, persisted_exists: bool, installed_exists: bool) -> Prepare {
    if persisted_exists {
        if installed_exists {
            Prepare::DropInstalled
        } else {
            Prepare::Keep
        }
    } else if installed_exists {
        Prepare::MoveToStore
    } else if names_file(entry) {
        Prepare::CreateFile
    } else {
        Prepare::CreateDir
    }
}

impl PersistManager {
    /// The root the store is kept under.
    pub closed spec fn root_view(&self) -> Seq<char> {
        self.root@
    }

    pub fn new(root: &str) -> (r: PersistManager)
        ensures
            r.root_view() == root@,
    {
        PersistManager { root: String::from_str(root) }
    }

    /// `persist\<app>` under the root.
    pub fn persist_dir(&self, app: &str) -> (r: String)
        ensures
            r@ == path::join(path::join(self.root_view(), "persist"@), app@),
    {
        let p = path::join_exec(self.root.as_str(), "persist");
        path::join_exec(p.as_str(), app)
    }

    /// How `entry` is linked between the store `persist_dir` and
    /// `install_dir`: afterwards the install directory's entry is a link
    /// (junction or hard link) to the store's.
    pub fn link_plan(
        &self,
        persist_dir: &str,
        install_dir: &str,
        entry: &str,
        persisted_exists: bool,
        installed_exists: bool,
    ) -> (r: PersistLink)
        ensures
            r.persisted@ == path::join(persist_dir@, entry@),
            r.installed@ == path::join(install_dir@, entry@),
            r.prepare == prepare_for(entry@, persisted_exists, installed_exists),
    {
        let prepare = if persisted_exists {
            if installed_exists {
                Prepare::DropInstalled
            } else {
                Prepare::Keep
            }
        } else if installed_exists {
            Prepare::MoveToStore
        } else if looks_like_file(entry) {
            Prepare::CreateFile
        } else {
            Prepare::CreateDir
        };
        PersistLink {
            persisted: path::join_exec(persist_dir, entry),
            installed: path::join_exec(install_dir, entry),
            prepare,
        }
    }

    /// The links to remove from `install_dir` (where they exist) so that
    /// removing the directory leaves the persisted data alone: each entry
    /// under `install_dir`.
    pub fn unlink_all(&self, install_dir: &str, entries: &Vec<String>) -> (r: Vec<String>)
        ensures
            r@.len() == entries@.len(),
            forall|i: int| 0 <= i < entries@.len() ==> (#[trigger] r@[i])@ == path::join(install_dir@, entries@[i]@),
    {
        let mut r: Vec<String> = Vec::new();
        let mut i: usize = 0;
        while i < entries.len()
            invariant
                i <= entries@.len(),
                r@.len() == i,
                forall|j: int| 0 <= j < i ==> (#[trigger] r@[j])@ == path::join(install_dir@, entries@[j]@),
            decreases entries@.len() - i,
        {
            r.push(path::join_exec(install_dir, entries[i].as_str()));
            i = i + 1;
        }
        r
    }
}

/// Linking never loses data: an entry the store has is kept and the
/// extracted copy dropped; an entry only the install has is moved into the
/// store; and an entry is created only when neither has it.
pub proof fn lemma_persist_keeps_data(entry: Seq<char>, persisted_exists: bool, installed_exists: bool)
    ensures
        persisted_exists ==> (prepare_for(entry, persisted_exists, installed_exists) == Prepare::DropInstalled
            || prepare_for(entry, persisted_exists, installed_exists) == Prepare::Keep),
        !persisted_exists && installed_exists ==> prepare_for(entry, persisted_exists, installed_exists)
            == Prepare::MoveToStore,
        (prepare_for(entry, persisted_exists, installed_exists) == Prepare::CreateFile || prepare_for(
            entry,
            persisted_exists,
            installed_exists,
        ) == Prepare::CreateDir) ==> !persisted_exists && !installed_exists,
{
}

} // verus!
