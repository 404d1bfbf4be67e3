//! `last export`: which files of an installed app are copied, and what
//! happens to files already at the destination. Copying is left to the
//! caller.

use vstd::prelude::*;

use crate::error::{LastError, LastErrorV};
use crate::path;
use crate::text;
use crate::ui::Ui;

verus! {

/// Options of `last export`.
pub struct ExportOptions {
    /// Also copy the persisted data.
    pub include_persist: bool,
    /// Replace what is at the destination instead of backing it up.
    pub overwrite: bool,
    /// The suffix of backups; a timestamp suffix when absent.
    pub backup_suffix: Option<String>,
}

impl Default for ExportOptions {
    fn default() -> (r: ExportOptions)
        ensures
            !r.include_persist,
            !r.overwrite,
            r.backup_suffix is None,
    {
        ExportOptions { include_persist: false, overwrite: false, backup_suffix: None }
    }
}

/// Exports installed apps of the LAST installation at `root`.
pub struct Exporter {
    pub root: String,
    pub ui: Ui,
}

impl Exporter {
    pub fn new(root: &str, ui: Ui) -> (r: Exporter)
        ensures
            r.root@ == root@,
            r.ui == ui,
    {
        Exporter { root: String::from_str(root), ui }
    }

    /// The `current` link of `app`, which is what is exported.
    pub fn current_dir(&self, app: &str) -> (r: String)
        ensures
            r@ == crate::install::current_dir(self.root@, app@),
    {
        let a = path::join_exec(self.root.as_str(), "apps");
        let b = path::join_exec(a.as_str(), app);
        path::join_exec(b.as_str(), "current")
    }

    /// The persist store of `app`.
    pub fn persist_dir(&self, app: &str) -> (r: String)
        ensures
            r@ == path::join(path::join(self.root@, "persist"@), app@),
    {
        let p = path::join_exec(self.root.as_str(), "persist");
        path::join_exec(p.as_str(), app)
    }
}

/// The refusal to export an app that is not installed.
pub fn not_installed(app: &str) -> (r: LastError)
    ensures
        r.deep_view() == LastErrorV::AppNotInstalled(app@),
{
    LastError::AppNotInstalled(String::from_str(app))
}

/// The text of a path before its first separator.
pub open spec fn first_piece(p: Seq<char>) -> Seq<char>
    decreases p.len(),
{
    if p.len() == 0 || path::is_sep(p[0]) {
        Seq::empty()
    } else {
        seq![p[0]] + first_piece(p.drop_first())
    }
}

/// A top-level name is persisted when some persist entry starts with it,
/// as its first path component (for the names of directory entries, which
/// hold no separator, drive or `.`/`..`, the first component is the text
/// before the first separator).
pub open spec fn persisted_name(name: Seq<char>, entries: Seq<Seq<char>>) -> bool {
    exists|i: int| 0 <= i < entries.len() && first_piece(#[trigger] entries[i]) == name
}

fn first_piece_exec(p: &str) -> (r: String)
    ensures
        r@ == first_piece(p@),
{
    let v = text::to_chars(p);
    let mut k: usize = 0;
    while k < v.len() && v[k] != '/' && v[k] != '\\'
        invariant
            k <= v@.len(),
            forall|j: int| 0 <= j < k ==> !path::is_sep(v@[j]),
        decreases v@.len() - k,
    {
        k = k + 1;
    }
    proof {
        lemma_first_piece(v@, k as int);
    }
    text::string_of_range(&v, 0, k)
}

proof fn lemma_first_piece(s: Seq<char>, k: int)
    requires
        0 <= k <= s.len(),
        forall|j: int| 0 <= j < k ==> !path::is_sep(s[j]),
        k < s.len() ==> path::is_sep(s[k]),
    ensures
        first_piece(s) == s.subrange(0, k),
    decreases k,
{
    if k > 0 {
        lemma_first_piece(s.drop_first(), k - 1);
        assert(s.subrange(0, k) =~= seq![s[0]] + s.drop_first().subrange(0, k - 1));
    } else {
        assert(s.subrange(0, 0) =~= Seq::<char>::empty());
    }
}

/// Whether the top-level `name` is one of the persist entries.
pub fn is_persist_entry(name: &str, entries: &Vec<String>) -> (r: bool)
    ensures
        r == persisted_name(name@, text::views(entries@)),
{
    let ghost es = text::views(entries@);
    let mut i: usize = 0;
    while i < entries.len()
        invariant
            i <= entries@.len(),
            es == text::views(entries@),
            forall|j: int| 0 <= j < i ==> first_piece(#[trigger] es[j]) != name@,
        decreases entries@.len() - i,
    {
        let f = first_piece_exec(entries[i].as_str());
        if text::str_eq(f.as_str(), name) {
            assert(first_piece(es[i as int]) == name@);
            return true;
        }
        i = i + 1;
    }
    false
}

/// The top-level names of the exported directory that are copied: all of
/// them when persisted data is included, else those that are not persist
/// entries; in order.
pub open spec fn exported(names: Seq<Seq<char>>, entries: Seq<Seq<char>>, include_persist: bool) -> Seq<Seq<char>> {
    names.filter(|n: Seq<char>| include_persist || !persisted_name(n, entries))
}

/// The names to copy out of the exported directory.
pub fn exported_names(names: &Vec<String>, entries: &Vec<String>, include_persist: bool) -> (r: Vec<String>)
    ensures
        text::views(r@) == exported(text::views(names@), text::views(entries@), include_persist),
{
    let ghost ns = text::views(names@);
    let ghost es = text::views(entries@);
    let ghost keep = |n: Seq<char>| include_persist || !persisted_name(n, es);
    let mut r: Vec<String> = Vec::new();
    let mut i: usize = 0;
    while i < names.len()
        invariant
            i <= names@.len(),
            ns == text::views(names@),
            es == text::views(entries@),
            keep == (|n: Seq<char>| include_persist || !persisted_name(n, es)),
            text::views(r@) == ns.subrange(0, i as int).filter(keep),
        decreases names@.len() - i,
    {
        proof {
            assert(ns.subrange(0, i + 1) == ns.subrange(0, i as int).push(ns[i as int]));
            ns.subrange(0, i as int).lemma_filter_push(ns[i as int], keep);
        }
        if include_persist || !is_persist_entry(names[i].as_str(), entries) {
            let ghost before = r@;
            r.push(names[i].clone());
            proof {
                assert(text::views(r@) =~= text::views(before).push(ns[i as int]));
            }
        }
        i = i + 1;
    }
    proof {
        assert(ns.subrange(0, ns.len() as int) == ns);
    }
    r
}

/// `s` without its trailing separators.
pub open spec fn trim_seps(s: Seq<char>) -> Seq<char>
    decreases s.len(),
{
    if s.len() > 0 && path::is_sep(s.last()) {
        trim_seps(s.drop_last())
    } else {
        s
    }
}

/// `s` is longer than its form without trailing separators only by them.
pub proof fn lemma_trim_seps_len(s: Seq<char>)
    ensures
        trim_seps(s).len() <= s.len(),
        trim_seps(s) == s.subrange(0, trim_seps(s).len() as int),
    decreases s.len(),
{
    if s.len() > 0 && path::is_sep(s.last()) {
        lemma_trim_seps_len(s.drop_last());
        assert(s.drop_last().subrange(0, trim_seps(s).len() as int) == s.subrange(0, trim_seps(s).len() as int));
    } else {
        assert(s.subrange(0, s.len() as int) == s);
    }
}

/// The length of the last component of `s`.
pub proof fn lemma_last_segment_len(s: Seq<char>)
    ensures
        path::last_segment(s).len() <= s.len(),
    decreases s.len(),
{
    if s.len() > 0 && !path::is_sep(s.last()) {
        lemma_last_segment_len(s.drop_last());
    }
}

/// The backup name of the file at `p`, as `Path::with_file_name` makes it
/// from the file name with `suffix` appended: the last component with
/// `suffix` appended, in the same directory (the text before the last
/// component, without trailing separators). A trailing `.` component is
/// passed over; a path without a file name (empty, a root, `.` or ending
/// in `..`) gets `suffix` pushed on as a component of its own.
pub open spec fn backup_of(p: Seq<char>, suffix: Seq<char>) -> Seq<char>
    decreases p.len(),
{
    let q = trim_seps(p);
    let name = path::last_segment(q);
    let dir = q.subrange(0, q.len() - name.len());
    if name == seq!['.'] && dir.len() > 0 {
        proof {
            lemma_trim_seps_len(p);
            lemma_last_segment_len(q);
        }
        backup_of(dir, suffix)
    } else if name.len() == 0 || name == seq!['.'] || name == seq!['.', '.'] {
        path::join(p, suffix)
    } else {
        path::join(trim_seps(dir), name + suffix)
    }
}

fn trim_seps_exec(v: &Vec<char>, end: usize) -> (r: usize)
    requires
        end <= v@.len(),
    ensures
        r <= end,
        trim_seps(v@.subrange(0, end as int)) == v@.subrange(0, r as int),
{
    let mut k: usize = end;
    while k > 0 && (v[k - 1] == '/' || v[k - 1] == '\\')
        invariant
            k <= end <= v@.len(),
            trim_seps(v@.subrange(0, end as int)) == trim_seps(v@.subrange(0, k as int)),
        decreases k,
    {
        proof {
            assert(v@.subrange(0, k as int).drop_last() == v@.subrange(0, k - 1));
        }
        k = k - 1;
    }
    k
}

/// The backup name of the file at `v[..end]`.
fn backup_from(v: &Vec<char>, end: usize, suffix: &str) -> (r: String)
    requires
        end <= v@.len(),
    ensures
        r@ == backup_of(v@.subrange(0, end as int), suffix@),
    decreases end,
{
    let ghost p = v@.subrange(0, end as int);
    let q = trim_seps_exec(v, end);
    let ghost qs = v@.subrange(0, q as int);
    let mut k: usize = q;
    while k > 0 && v[k - 1] != '/' && v[k - 1] != '\\'
        invariant
            k <= q <= v@.len(),
            forall|j: int| k <= j < q ==> !path::is_sep(v@[j]),
        decreases k,
    {
        k = k - 1;
    }
    proof {
        path::lemma_last_segment(qs, k - 1);
        assert(qs.subrange(k as int, q as int) == v@.subrange(k as int, q as int));
        assert(qs.subrange(0, k as int) == v@.subrange(0, k as int));
        assert(path::last_segment(qs).len() == q - k);
    }
    if q - k == 1 && v[k] == '.' && k > 0 {
        proof {
            assert(path::last_segment(qs) =~= seq!['.']);
        }
        return backup_from(v, k, suffix);
    }
    let is_dot = q - k == 1 && v[k] == '.';
    let is_dots = q - k == 2 && v[k] == '.' && v[k + 1] == '.';
    if q == k || is_dot || is_dots {
        proof {
            if is_dot {
                assert(path::last_segment(qs) =~= seq!['.']);
            }
            if is_dots {
                assert(path::last_segment(qs) =~= seq!['.', '.']);
            }
        }
        let whole = text::string_of_range(v, 0, end);
        return path::join_exec(whole.as_str(), suffix);
    }
    proof {
        let name = path::last_segment(qs);
        assert(name.len() != 0);
        assert(name != seq!['.']) by {
            if name == seq!['.'] {
                assert(name[0] == v@[k as int]);
            }
        }
        assert(name != seq!['.', '.']) by {
            if name == seq!['.', '.'] {
                assert(name[0] == v@[k as int] && name[1] == v@[k + 1]);
            }
        }
    }
    let mut name = text::string_of_range(v, k, q);
    name.append(suffix);
    let d = trim_seps_exec(v, k);
    let parent = text::string_of_range(v, 0, d);
    path::join_exec(parent.as_str(), name.as_str())
}

/// Where the file at `path` is moved before it is replaced: the same name
/// with `suffix` appended, or `.bak.<timestamp>` when no suffix is given.
pub fn backup_path(path: &str, suffix: Option<&str>, timestamp: &str) -> (r: String)
    ensures
        r@ == backup_of(
            path@,
            match suffix {
                Some(s) => s@,
                None => ".bak."@ + timestamp@,
            },
        ),
{
    let suffix: String = match suffix {
        Some(s) => String::from_str(s),
        None => {
            let mut s = String::from_str(".bak.");
            s.append(timestamp);
            s
        },
    };
    let v = text::to_chars(path);
    proof {
        assert(v@.subrange(0, v@.len() as int) == v@);
    }
    backup_from(&v, v.len(), suffix.as_str())
}

/// What is done with something already at a destination: removed when
/// overwriting, else moved to its backup path.
pub enum ExistingAction {
    Remove,
    BackUp(String),
}

/// The backup name of `path` made now: with `suffix`, or with
/// `.bak.<local time>` when no suffix is given.
pub fn backup_path_now(path: &str, suffix: Option<&str>) -> (r: String)
    ensures
        suffix matches Some(s) ==> r@ == backup_of(path@, s@),
        suffix is None ==> exists|t: Seq<char>| r@ == backup_of(path@, ".bak."@ + t),
{
    match suffix {
        Some(s) => backup_path(path, Some(s), ""),
        None => {
            proof {
                reveal_strlit("%Y%m%d%H%M%S");
            }
            let t = crate::clock::local_time("%Y%m%d%H%M%S");
            let r = backup_path(path, None, t.as_str());
            assert(r@ == backup_of(path@, ".bak."@ + t@));
            r
        },
    }
}

/// What to do with `dest`, which already exists, before copying over it:
/// remove it when overwriting, else move it to its backup name.
pub fn existing_action(options: &ExportOptions, dest: &str) -> (r: ExistingAction)
    ensures
        options.overwrite ==> r is Remove,
        !options.overwrite && options.backup_suffix is Some ==> (r matches ExistingAction::BackUp(b) && b@ == backup_of(
            dest@,
            options.backup_suffix->Some_0@,
        )),
        !options.overwrite && options.backup_suffix is None ==> (r matches ExistingAction::BackUp(b) && exists|t: Seq<char>|
            b@ == backup_of(dest@, ".bak."@ + t)),
{
    if options.overwrite {
        ExistingAction::Remove
    } else {
        let s = match &options.backup_suffix {
            Some(s) => Some(s.as_str()),
            None => None,
        };
        ExistingAction::BackUp(backup_path_now(dest, s))
    }
}

} // verus!
