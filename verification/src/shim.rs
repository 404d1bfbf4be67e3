//! Shims: a `.cmd` file per `bin` entry in `shims` under the LAST root,
//! forwarding to the executable under the app's `current` link. This module
//! decides the names, paths and contents; writing them is left to the
//! caller.

use vstd::prelude::*;

use crate::manifest::{BinEntry, BinEntryV};
use crate::path;
use crate::text;

verus! {

/// The shim directory of a LAST installation.
pub struct ShimManager {
    shims_dir: String,
}

/// A path's stem, or the whole path when it has none.
pub open spec fn stem_or_path(p: Seq<char>) -> Seq<char> {
    match path::file_stem(p) {
        Some(s) => s,
        None => p,
    }
}

/// The file stem of `path`, or the path itself when it has none.
pub fn file_stem(path: &str) -> (r: String)
    ensures
        r@ == stem_or_path(path@),
{
    match path::file_stem_exec(path) {
        Some(s) => s,
        None => String::from_str(path),
    }
}

/// An argument as written in a shim: quoted when it contains a space.
pub open spec fn quoted(arg: Seq<char>) -> Seq<char> {
    if text::contains(arg, " "@) {
        "\""@ + arg + "\""@
    } else {
        arg
    }
}

/// An argument as written in a shim.
pub fn quote_arg(arg: &str) -> (r: String)
    ensures
        r@ == quoted(arg@),
{
    if text::contains_exec(arg, " ") {
        let mut r = String::from_str("\"");
        r.append(arg);
        r.append("\"");
        r
    } else {
        String::from_str(arg)
    }
}

/// The text of a shim that runs `target` with the fixed arguments `args`
/// and whatever it is given: through PowerShell for a `.ps1` script (in
/// any case), directly otherwise.
pub open spec fn shim_text(target: Seq<char>, exe: Seq<char>, args: Seq<char>) -> Seq<char> {
    if text::ends_with(text::lower(exe), ".ps1"@) {
        "@echo off\r\npowershell -NoProfile -ExecutionPolicy Bypass -File \""@ + target + "\" "@ + args + " %*\r\n"@
    } else {
        "@echo off\r\n\""@ + target + "\" "@ + args + " %*\r\n"@
    }
}

/// One shim to write.
pub struct ShimFile {
    /// The command name.
    pub alias: String,
    /// The `.cmd` file.
    pub path: String,
    /// The executable it runs.
    pub target: String,
    pub content: String,
}

/// `f` is the shim of `bin` in `shims_dir` for an app whose `current` link
/// is `current_dir`: the executable path with `/` written as `\`, under
/// `current_dir`; named by the entry's alias, else by the executable's
/// stem.
pub open spec fn is_shim_for(f: ShimFile, bin: BinEntryV, shims_dir: Seq<char>, current_dir: Seq<char>) -> bool {
    let exe = text::replace_char(bin.exe(), '/', seq!['\\']);
    let alias = match bin.alias() {
        Some(a) => a,
        None => stem_or_path(exe),
    };
    &&& f.alias@ == alias
    &&& f.path@ == path::join(shims_dir, alias + ".cmd"@)
    &&& f.target@ == path::join(current_dir, exe)
    &&& f.content@ == shim_text(
        path::join(current_dir, exe),
        exe,
        text::join(bin.extra_args().map_values(|a: Seq<char>| quoted(a)), " "@),
    )
}

impl ShimManager {
    /// The shim directory.
    pub closed spec fn dir_view(&self) -> Seq<char> {
        self.shims_dir@
    }

    /// The shim directory of the LAST installation at `root`: `shims`.
    pub fn new(root: &str) -> (r: ShimManager)
        ensures
            r.dir_view() == path::join(root@, "shims"@),
    {
        ShimManager { shims_dir: path::join_exec(root, "shims") }
    }

    /// The shim directory.
    pub fn shims_dir(&self) -> (r: &str)
        ensures
            r@ == self.dir_view(),
    {
        self.shims_dir.as_str()
    }

    /// The `.cmd` file of the shim `name`.
    pub fn shim_path(&self, name: &str) -> (r: String)
        ensures
            r@ == path::join(self.dir_view(), name@ + ".cmd"@),
    {
        let mut f = String::from_str(name);
        f.append(".cmd");
        path::join_exec(self.shims_dir.as_str(), f.as_str())
    }

    /// The shim of one `bin` entry.
    pub fn shim_for(&self, bin: &BinEntry, current_dir: &str) -> (r: ShimFile)
        ensures
            is_shim_for(r, bin.deep_view(), self.dir_view(), current_dir@),
    {
        proof {
            reveal_strlit("\\");
        }
        let exe = text::replace_char_exec(bin.exe(), '/', "\\");
        proof {
            assert("\\"@ =~= seq!['\\']);
        }
        let target = path::join_exec(current_dir, exe.as_str());
        let alias = match bin.alias() {
            Some(a) => String::from_str(a),
            None => file_stem(exe.as_str()),
        };
        let path = self.shim_path(alias.as_str());
        let extra = bin.extra_args();
        let mut quoted_args: Vec<String> = Vec::new();
        let mut i: usize = 0;
        while i < extra.len()
            invariant
                i <= extra@.len(),
                quoted_args@.len() == i,
                forall|j: int| 0 <= j < i ==> (#[trigger] quoted_args@[j])@ == quoted(extra@[j]@),
            decreases extra@.len() - i,
        {
            quoted_args.push(quote_arg(extra[i].as_str()));
            i = i + 1;
        }
        let args = text::join_exec(&quoted_args, " ");
        proof {
            assert(text::views(quoted_args@) =~= bin.deep_view().extra_args().map_values(|a: Seq<char>| quoted(a)))
                by {
                assert(extra.deep_view() == bin.deep_view().extra_args());
                assert forall|j: int| 0 <= j < extra@.len() implies extra.deep_view()[j] == extra@[j]@ by {}
            }
        }
        let l = text::lower_exec(exe.as_str());
        let mut content = if text::ends_with_exec(l.as_str(), ".ps1") {
            String::from_str("@echo off\r\npowershell -NoProfile -ExecutionPolicy Bypass -File \"")
        } else {
            String::from_str("@echo off\r\n\"")
        };
        content.append(target.as_str());
        content.append("\" ");
        content.append(args.as_str());
        content.append(" %*\r\n");
        proof {
            assert(content@ =~= shim_text(target@, exe@, args@));
        }
        ShimFile { alias, path, target, content }
    }

    /// The shims of all `bin` entries, in order.
    pub fn create_all(&self, bins: &Vec<BinEntry>, current_dir: &str) -> (r: Vec<ShimFile>)
        ensures
            r@.len() == bins@.len(),
            forall|i: int|
                0 <= i < bins@.len() ==> is_shim_for(#[trigger] r@[i], bins@[i].deep_view(), self.dir_view(), current_dir@),
    {
        let mut r: Vec<ShimFile> = Vec::new();
        let mut i: usize = 0;
        while i < bins.len()
            invariant
                i <= bins@.len(),
                r@.len() == i,
                forall|j: int|
                    0 <= j < i ==> is_shim_for(#[trigger] r@[j], bins@[j].deep_view(), self.dir_view(), current_dir@),
            decreases bins@.len() - i,
        {
            r.push(self.shim_for(&bins[i], current_dir));
            i = i + 1;
        }
        r
    }
}

/// A shim passes the entry's fixed arguments on, whatever the executable:
/// its text starts with `@echo off`, and ends with the quoted target, a
/// space, the entry's extra arguments (each quoted when it holds a space,
/// joined by spaces), and ` %*` with which the shim's own arguments follow.
pub proof fn lemma_shim_passes_extra_args(f: ShimFile, bin: BinEntryV, shims_dir: Seq<char>, current_dir: Seq<char>)
    requires
        is_shim_for(f, bin, shims_dir, current_dir),
    ensures
        ({
            let args = text::join(bin.extra_args().map_values(|a: Seq<char>| quoted(a)), " "@);
            let tail = "\""@ + f.target@ + "\" "@ + args + " %*\r\n"@;
            &&& text::starts_with(f.content@, "@echo off\r\n"@)
            &&& text::ends_with(f.content@, tail)
        }),
{
    let args = text::join(bin.extra_args().map_values(|a: Seq<char>| quoted(a)), " "@);
    let tail = "\""@ + f.target@ + "\" "@ + args + " %*\r\n"@;
    let exe = text::replace_char(bin.exe(), '/', seq!['\\']);
    let head = if text::ends_with(text::lower(exe), ".ps1"@) {
        "@echo off\r\npowershell -NoProfile -ExecutionPolicy Bypass -File "@
    } else {
        "@echo off\r\n"@
    };
    reveal_strlit("@echo off\r\npowershell -NoProfile -ExecutionPolicy Bypass -File \"");
    reveal_strlit("@echo off\r\npowershell -NoProfile -ExecutionPolicy Bypass -File ");
    reveal_strlit("@echo off\r\n\"");
    reveal_strlit("@echo off\r\n");
    reveal_strlit("\"");
    assert("@echo off\r\npowershell -NoProfile -ExecutionPolicy Bypass -File \""@ =~= "@echo off\r\npowershell -NoProfile -ExecutionPolicy Bypass -File "@
        + "\""@);
    assert("@echo off\r\n\""@ =~= "@echo off\r\n"@ + "\""@);
    assert(f.content@ =~= head + tail);
    assert(f.content@.subrange(0, "@echo off\r\n"@.len() as int) =~= "@echo off\r\n"@);
    assert(f.content@.subrange(f.content@.len() - tail.len(), f.content@.len() as int) =~= tail);
}

} // verus!
