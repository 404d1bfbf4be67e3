//! Manifest scripts: the variables they see, which engine runs them, the
//! PowerShell form of a script, and the wildcard matching of `glob()`.

use vstd::prelude::*;

use crate::error::{LastError, LastErrorV};
use crate::path;
use crate::text;
use crate::ui::Ui;

verus! {

/// The variables made available to every script.
pub struct ScriptContext {
    /// Installation directory of the current version.
    pub dir: String,
    /// Persist directory of the app.
    pub persist_dir: String,
    pub version: String,
    pub app: String,
    /// `64bit`, `32bit` or `arm64`.
    pub architecture: String,
    /// The LAST root directory (also given to scripts as `scoopdir`).
    pub last_root: String,
    pub global: bool,
}

/// A script execution backend. `run` fails, with a message, when the
/// script fails or cannot be run; an `error()` call inside a script does
/// not make it fail.
pub trait ScriptEngine {
    fn run(&self, source: &str, context: &ScriptContext) -> Result<(), String>;
}

/// A script selects PowerShell explicitly with this marker on its first
/// line.
pub open spec fn powershell_marker() -> Seq<char> {
    "#!powershell"@
}

/// What to do with a script first.
pub enum ScriptStep {
    /// Run this text with PowerShell.
    PowerShell(String),
    /// Run the script with the Rhai engine.
    Rhai,
}

/// Chooses the engine for manifest scripts: Rhai, with PowerShell for
/// scripts that ask for it or that look like PowerShell, when PowerShell
/// compatibility is on.
pub struct ScriptRunner {
    pub powershell_compat: bool,
}

/// The markers by which a script is taken for PowerShell.
pub open spec fn powershell_markers() -> Seq<Seq<char>> {
    seq![
        "$env:"@,
        "Write-Host"@,
        "Write-Output"@,
        "Get-Item"@,
        "Set-Item"@,
        "New-Item"@,
        "Remove-Item"@,
        "Copy-Item"@,
        "-ErrorAction"@,
        "Start-Process"@,
        "Test-Path"@,
    ]
}

/// Heuristic detection of PowerShell in legacy Scoop scripts: the source
/// contains one of the markers.
pub fn looks_like_powershell(source: &str) -> (r: bool)
    ensures
        r == exists|i: int| 0 <= i < powershell_markers().len() && text::contains(source@, #[trigger] powershell_markers()[i]),
{
    let markers: [&str; 11] = [
        "$env:",
        "Write-Host",
        "Write-Output",
        "Get-Item",
        "Set-Item",
        "New-Item",
        "Remove-Item",
        "Copy-Item",
        "-ErrorAction",
        "Start-Process",
        "Test-Path",
    ];
    proof {
        assert(markers@.map_values(|m: &str| m@) =~= powershell_markers());
    }
    let mut i: usize = 0;
    while i < 11
        invariant
            i <= 11,
            markers@.map_values(|m: &str| m@) == powershell_markers(),
            forall|j: int| 0 <= j < i ==> !text::contains(source@, #[trigger] powershell_markers()[j]),
        decreases 11 - i,
    {
        assert(markers@[i as int]@ == powershell_markers()[i as int]);
        if text::contains_exec(source, markers[i]) {
            return true;
        }
        i = i + 1;
    }
    false
}

impl ScriptRunner {
    pub fn new(powershell_compat: bool) -> (r: ScriptRunner)
        ensures
            r.powershell_compat == powershell_compat,
    {
        ScriptRunner { powershell_compat }
    }

    /// How a script is run first. A script whose first non-blank text is
    /// `#!powershell` runs the rest with PowerShell, refused when
    /// PowerShell compatibility is off; any other runs with Rhai.
    pub fn run(&self, source: &str) -> (r: Result<ScriptStep, LastError>)
        ensures
            ({
                let t = text::trim_start(source@);
                if text::starts_with(t, powershell_marker()) {
                    if self.powershell_compat {
                        r matches Ok(ScriptStep::PowerShell(rest)) && rest@ == t.subrange(
                            powershell_marker().len() as int,
                            t.len() as int,
                        )
                    } else {
                        r matches Err(e) && e.deep_view() == LastErrorV::PowerShellDisabled
                    }
                } else {
                    r matches Ok(ScriptStep::Rhai)
                }
            }),
    {
        let t = text::trim_start_exec(source);
        proof {
            reveal_strlit("#!powershell");
        }
        if text::starts_with_exec(t.as_str(), "#!powershell") {
            if !self.powershell_compat {
                return Err(LastError::PowerShellDisabled);
            }
            let v = text::to_chars(t.as_str());
            let n = "#!powershell".unicode_len();
            Ok(ScriptStep::PowerShell(text::string_of_range(&v, n, v.len())))
        } else {
            Ok(ScriptStep::Rhai)
        }
    }

    /// Whether a script that Rhai failed to run is run with PowerShell
    /// instead: when compatibility is on and it looks like PowerShell.
    /// Otherwise the Rhai error stands.
    pub fn falls_back_to_powershell(&self, source: &str) -> (r: bool)
        ensures
            r == (self.powershell_compat && exists|i: int| 0 <= i < powershell_markers().len() && text::contains(
                source@,
                #[trigger] powershell_markers()[i],
            )),
    {
        self.powershell_compat && looks_like_powershell(source)
    }
}

/// A value escaped for a single-quoted PowerShell string: every `'`
/// doubled.
pub fn escape(value: &str) -> (r: String)
    ensures
        r@ == text::replace_char(value@, '\'', "''"@),
{
    text::replace_char_exec(value, '\'', "''")
}

/// The text `$name = 'value'; ` with `value` escaped.
pub open spec fn ps_assign(name: Seq<char>, value: Seq<char>) -> Seq<char> {
    "$"@ + name + " = '"@ + text::replace_char(value, '\'', "''"@) + "'; "@
}

/// The PowerShell program for a script: the context as variables
/// (`$dir`, `$persist_dir`, `$version`, `$app`, `$architecture`,
/// `$scoopdir`, `$last_root`, `$global`), a newline, then the script.
pub open spec fn powershell_program(source: Seq<char>, c: ScriptContext) -> Seq<char> {
    ps_assign("dir"@, c.dir@) + ps_assign("persist_dir"@, c.persist_dir@) + ps_assign("version"@, c.version@)
        + ps_assign("app"@, c.app@) + ps_assign("architecture"@, c.architecture@) + ps_assign(
        "scoopdir"@,
        c.last_root@,
    ) + ps_assign("last_root"@, c.last_root@) + "$global = $"@ + (if c.global {
        "true"@
    } else {
        "false"@
    }) + "; "@ + "\n"@ + source
}

fn append_assign(out: &mut String, name: &str, value: &str)
    ensures
        final(out)@ == old(out)@ + ps_assign(name@, value@),
{
    out.append("$");
    out.append(name);
    out.append(" = '");
    let e = escape(value);
    out.append(e.as_str());
    out.append("'; ");
    proof {
        assert(final(out)@ =~= old(out)@ + ps_assign(name@, value@));
    }
}

/// The program that runs `source` with PowerShell in `context`.
pub fn powershell_script(source: &str, context: &ScriptContext) -> (r: String)
    ensures
        r@ == powershell_program(source@, *context),
{
    let mut out = String::new();
    append_assign(&mut out, "dir", context.dir.as_str());
    append_assign(&mut out, "persist_dir", context.persist_dir.as_str());
    append_assign(&mut out, "version", context.version.as_str());
    append_assign(&mut out, "app", context.app.as_str());
    append_assign(&mut out, "architecture", context.architecture.as_str());
    append_assign(&mut out, "scoopdir", context.last_root.as_str());
    append_assign(&mut out, "last_root", context.last_root.as_str());
    out.append("$global = $");
    out.append(if context.global { "true" } else { "false" });
    out.append("; ");
    out.append("\n");
    out.append(source);
    proof {
        assert(out@ =~= powershell_program(source@, *context));
    }
    out
}

/// `name` matches `pattern`, where `*` stands for any sequence of
/// characters, `?` for any single character, and other characters match
/// themselves up to ASCII case.
pub open spec fn wildcard(p: Seq<char>, n: Seq<char>) -> bool
    decreases p.len() + n.len(),
{
    if p.len() == 0 {
        n.len() == 0
    } else if p[0] == '*' {
        wildcard(p.drop_first(), n) || (n.len() > 0 && wildcard(p, n.drop_first()))
    } else if n.len() == 0 {
        false
    } else if p[0] == '?' {
        wildcard(p.drop_first(), n.drop_first())
    } else if text::lower_char(p[0]) == text::lower_char(n[0]) {
        wildcard(p.drop_first(), n.drop_first())
    } else {
        false
    }
}

fn wildcard_from(p: &Vec<char>, i: usize, n: &Vec<char>, j: usize) -> (r: bool)
    requires
        i <= p@.len(),
        j <= n@.len(),
    ensures
        r == wildcard(p@.subrange(i as int, p@.len() as int), n@.subrange(j as int, n@.len() as int)),
    decreases (p@.len() - i) + (n@.len() - j),
{
    let ghost ps = p@.subrange(i as int, p@.len() as int);
    let ghost ns = n@.subrange(j as int, n@.len() as int);
    proof {
        if i < p@.len() {
            assert(ps.drop_first() == p@.subrange(i + 1, p@.len() as int));
        }
        if j < n@.len() {
            assert(ns.drop_first() == n@.subrange(j + 1, n@.len() as int));
        }
    }
    if i == p.len() {
        j == n.len()
    } else if p[i] == '*' {
        wildcard_from(p, i + 1, n, j) || (j < n.len() && wildcard_from(p, i, n, j + 1))
    } else if j == n.len() {
        false
    } else if p[i] == '?' {
        wildcard_from(p, i + 1, n, j + 1)
    } else if text::lower_char_exec(p[i]) == text::lower_char_exec(n[j]) {
        wildcard_from(p, i + 1, n, j + 1)
    } else {
        false
    }
}

/// Matches `name` against a pattern of `*` and `?` wildcards, ignoring
/// ASCII case.
pub fn wildcard_match(pattern: &str, name: &str) -> (r: bool)
    ensures
        r == wildcard(pattern@, name@),
{
    let p = text::to_chars(pattern);
    let n = text::to_chars(name);
    proof {
        assert(p@.subrange(0, p@.len() as int) == p@);
        assert(n@.subrange(0, n@.len() as int) == n@);
    }
    wildcard_from(&p, 0, &n, 0)
}

/// A `*` matches every name.
pub proof fn lemma_star_matches_all(n: Seq<char>)
    ensures
        wildcard(seq!['*'], n),
    decreases n.len(),
{
    let p = seq!['*'];
    assert(p.drop_first() =~= Seq::<char>::empty());
    assert(p.len() == 1 && p[0] == '*');
    if n.len() > 0 {
        lemma_star_matches_all(n.drop_first());
        assert(wildcard(p, n.drop_first()));
    } else {
        assert(wildcard(p.drop_first(), n));
    }
}

/// A pattern without wildcards matches exactly the names equal to it up
/// to ASCII case.
pub proof fn lemma_literal_pattern(p: Seq<char>, n: Seq<char>)
    requires
        forall|i: int| 0 <= i < p.len() ==> p[i] != '*' && p[i] != '?',
    ensures
        wildcard(p, n) <==> text::eq_ignore_case(p, n),
    decreases p.len() + n.len(),
{
    if p.len() > 0 && n.len() > 0 {
        assert forall|i: int| 0 <= i < p.drop_first().len() implies p.drop_first()[i] != '*' && p.drop_first()[i] != '?' by {
            assert(p.drop_first()[i] == p[i + 1]);
        }
        lemma_literal_pattern(p.drop_first(), n.drop_first());
        if text::eq_ignore_case(p, n) {
            assert(text::lower(p)[0] == text::lower(n)[0]);
            assert(text::lower(p.drop_first()) =~= text::lower(p).drop_first());
            assert(text::lower(n.drop_first()) =~= text::lower(n).drop_first());
        }
        if text::lower_char(p[0]) == text::lower_char(n[0]) && text::eq_ignore_case(p.drop_first(), n.drop_first()) {
            assert(text::lower(p) =~= seq![text::lower_char(p[0])] + text::lower(p.drop_first()));
            assert(text::lower(n) =~= seq![text::lower_char(n[0])] + text::lower(n.drop_first()));
        }
    } else if p.len() > 0 {
        assert(text::lower(p).len() != text::lower(n).len());
    } else if n.len() > 0 {
        assert(text::lower(p).len() != text::lower(n).len());
    } else {
        assert(text::lower(p) =~= text::lower(n));
    }
}

/// Runs scripts with `powershell.exe`.
pub struct PowerShellEngine {
    pub ui: Ui,
}

impl PowerShellEngine {
    pub fn new(ui: Ui) -> (r: PowerShellEngine)
        ensures
            r.ui == ui,
    {
        PowerShellEngine { ui }
    }

    /// The arguments of `powershell.exe` that run `source` in `context`.
    pub fn arguments(&self, source: &str, context: &ScriptContext) -> (r: Vec<String>)
        ensures
            text::views(r@) == seq![
                "-NoProfile"@,
                "-NonInteractive"@,
                "-ExecutionPolicy"@,
                "Bypass"@,
                "-Command"@,
                powershell_program(source@, *context),
            ],
    {
        let mut r: Vec<String> = Vec::new();
        r.push(String::from_str("-NoProfile"));
        r.push(String::from_str("-NonInteractive"));
        r.push(String::from_str("-ExecutionPolicy"));
        r.push(String::from_str("Bypass"));
        r.push(String::from_str("-Command"));
        r.push(powershell_script(source, context));
        proof {
            assert(text::views(r@) =~= seq![
                "-NoProfile"@,
                "-NonInteractive"@,
                "-ExecutionPolicy"@,
                "Bypass"@,
                "-Command"@,
                powershell_program(source@, *context),
            ]);
        }
        r
    }
}

/// `s` without its trailing separators, but keeping a leading one when
/// `s` is made of separators only, and the one after a drive (`C:\`)
/// when `s` is a drive root.
pub open spec fn trim_dir(s: Seq<char>) -> Seq<char> {
    let t = crate::export::trim_seps(s);
    if t.len() == 0 && s.len() > 0 {
        s.subrange(0, 1)
    } else if t.len() == 2 && path::drive_prefix(t) && s.len() > 2 {
        s.subrange(0, 3)
    } else {
        t
    }
}

/// The directory part of a path: the text before its last component,
/// without trailing separators; none when the path has no component.
pub open spec fn dir_part(p: Seq<char>) -> Option<Seq<char>> {
    let q = crate::export::trim_seps(p);
    if q.len() == 0 {
        None
    } else {
        Some(trim_dir(q.subrange(0, q.len() - path::last_segment(q).len())))
    }
}

/// `**` is a whole component of `s` at position `i`.
pub open spec fn star_at(s: Seq<char>, i: int) -> bool {
    &&& 0 <= i && i + 2 <= s.len()
    &&& s[i] == '*' && s[i + 1] == '*'
    &&& i == 0 || path::is_sep(s[i - 1])
    &&& i + 2 == s.len() || path::is_sep(s[i + 2])
}

/// What a `glob()` pattern asks for: names matching `file_pattern` in
/// `base`, or anywhere below it when `recursive`.
pub struct GlobPlan {
    pub file_pattern: String,
    pub base: String,
    pub recursive: bool,
}

/// A `glob()` pattern with `/` taken as `\\`.
pub open spec fn glob_text(pattern: Seq<char>) -> Seq<char> {
    text::replace_char(pattern, '/', seq!['\\'])
}

/// The directory a `glob()` pattern searches: its directory part, `.`
/// when it has none.
pub open spec fn glob_parent(pattern: Seq<char>) -> Seq<char> {
    match dir_part(glob_text(pattern)) {
        Some(d) => d,
        None => seq!['.'],
    }
}

/// The names a `glob()` pattern matches: its last component, empty when it
/// has none.
pub open spec fn glob_names(pattern: Seq<char>) -> Seq<char> {
    match path::file_name(glob_text(pattern)) {
        Some(n) => n,
        None => Seq::empty(),
    }
}

/// `g` is the reading of `pattern`: names matching its last component, in
/// its directory part; a `**` component in the directory makes the search
/// recursive, from the text before the first such component.
pub open spec fn glob_of(pattern: Seq<char>, g: GlobPlan) -> bool {
    &&& g.file_pattern@ == glob_names(pattern)
    &&& g.recursive == exists|i: int| star_at(glob_parent(pattern), i)
    &&& g.recursive ==> exists|i: int|
        star_at(glob_parent(pattern), i) && (forall|j: int| 0 <= j < i ==> !star_at(glob_parent(pattern), j))
            && g.base@ == trim_dir(glob_parent(pattern).subrange(0, i))
    &&& !g.recursive ==> g.base@ == glob_parent(pattern)
}

fn trim_dir_exec(v: &Vec<char>, end: usize) -> (r: String)
    requires
        end <= v@.len(),
    ensures
        r@ == trim_dir(v@.subrange(0, end as int)),
{
    let mut k: usize = end;
    while k > 0 && (v[k - 1] == '/' || v[k - 1] == '\\')
        invariant
            k <= end <= v@.len(),
            crate::export::trim_seps(v@.subrange(0, end as int)) == crate::export::trim_seps(v@.subrange(0, k as int)),
        decreases k,
    {
        proof {
            assert(v@.subrange(0, k as int).drop_last() == v@.subrange(0, k - 1));
        }
        k = k - 1;
    }
    proof {
        assert(v@.subrange(0, k as int).len() == 0 || !path::is_sep(v@.subrange(0, k as int).last()));
        assert(crate::export::trim_seps(v@.subrange(0, k as int)) == v@.subrange(0, k as int));
    }
    if k == 0 && end > 0 {
        proof {
            assert(v@.subrange(0, end as int).subrange(0, 1) == v@.subrange(0, 1));
        }
        text::string_of_range(v, 0, 1)
    } else if k == 2 && end > 2 && v[1] == ':' && (('a' <= v[0] && v[0] <= 'z') || ('A' <= v[0] && v[0] <= 'Z')) {
        proof {
            assert(v@.subrange(0, end as int).subrange(0, 3) == v@.subrange(0, 3));
        }
        text::string_of_range(v, 0, 3)
    } else {
        text::string_of_range(v, 0, k)
    }
}

/// Reads a `glob()` pattern.
pub fn glob_plan(pattern: &str) -> (r: GlobPlan)
    ensures
        glob_of(pattern@, r),
{
    proof {
        reveal_strlit("\\");
        reveal_strlit(".");
    }
    let p = text::replace_char_exec(pattern, '/', "\\");
    proof {
        assert("\\"@ =~= seq!['\\']);
    }
    let file_pattern = match path::file_name_exec(p.as_str()) {
        Some(n) => n,
        None => String::new(),
    };
    let v = text::to_chars(p.as_str());
    let mut q: usize = v.len();
    proof {
        assert(v@.subrange(0, v@.len() as int) == v@);
    }
    while q > 0 && (v[q - 1] == '/' || v[q - 1] == '\\')
        invariant
            q <= v@.len(),
            crate::export::trim_seps(v@) == crate::export::trim_seps(v@.subrange(0, q as int)),
        decreases q,
    {
        proof {
            assert(v@.subrange(0, q as int).drop_last() == v@.subrange(0, q - 1));
        }
        q = q - 1;
    }
    proof {
        assert(crate::export::trim_seps(v@.subrange(0, q as int)) == v@.subrange(0, q as int));
    }
    let parent: String = if q == 0 {
        String::from_str(".")
    } else {
        let mut k: usize = q;
        while k > 0 && v[k - 1] != '/' && v[k - 1] != '\\'
            invariant
                k <= q <= v@.len(),
                forall|j: int| k <= j < q ==> !path::is_sep(v@[j]),
            decreases k,
        {
            k = k - 1;
        }
        proof {
            let qs = v@.subrange(0, q as int);
            path::lemma_last_segment(qs, k - 1);
            assert(qs.subrange(0, qs.len() - path::last_segment(qs).len()) == v@.subrange(0, k as int));
        }
        trim_dir_exec(&v, k)
    };
    proof {
        assert(v@ == p@);
        assert(p@ == glob_text(pattern@));
        assert(parent@ == glob_parent(pattern@));
        assert(file_pattern@ == glob_names(pattern@));
    }
    let pv = text::to_chars(parent.as_str());
    match first_star(&pv) {
        Some(i) => {
            let base = trim_dir_exec(&pv, i);
            proof {
                assert(pv@ == parent@);
                assert(star_at(parent@, i as int) && (forall|j: int| 0 <= j < i ==> !star_at(parent@, j))
                    && base@ == trim_dir(parent@.subrange(0, i as int)));
            }
            GlobPlan { file_pattern, base, recursive: true }
        },
        None => GlobPlan { file_pattern, base: parent, recursive: false },
    }
}

fn first_star(v: &Vec<char>) -> (r: Option<usize>)
    ensures
        match r {
            Some(i) => star_at(v@, i as int) && forall|j: int| 0 <= j < i ==> !star_at(v@, j),
            None => forall|j: int| !star_at(v@, j),
        },
{
    let mut i: usize = 0;
    while i < v.len()
        invariant
            i <= v@.len(),
            forall|j: int| 0 <= j < i ==> !star_at(v@, j),
        decreases v@.len() - i,
    {
        if i + 1 < v.len() && v[i] == '*' && v[i + 1] == '*' && (i == 0 || v[i - 1] == '/' || v[i - 1] == '\\') && (i
            + 2 == v.len() || v[i + 2] == '/' || v[i + 2] == '\\') {
            return Some(i);
        }
        i = i + 1;
    }
    None
}

/// An entry found under a glob's base directory: its file name and its
/// path.
pub struct GlobEntry {
    pub name: String,
    pub path: String,
}

/// The paths of the entries whose file name matches `pattern`, in the
/// order found.
pub open spec fn glob_kept(pattern: Seq<char>, entries: Seq<GlobEntry>) -> Seq<String>
    decreases entries.len(),
{
    if entries.len() == 0 {
        Seq::empty()
    } else {
        let r = glob_kept(pattern, entries.drop_last());
        if wildcard(pattern, entries.last().name@) {
            r.push(entries.last().path)
        } else {
            r
        }
    }
}

/// What `glob()` returns for the entries found under the plan's base:
/// the paths of those whose file name matches the plan's pattern, sorted.
pub fn glob_results(plan: &GlobPlan, entries: Vec<GlobEntry>) -> (r: Vec<String>)
    ensures
        r@ == text::sorted_by_insertion(glob_kept(plan.file_pattern@, entries@)),
        text::sorted_by_name(r@),
{
    let ghost es = entries@;
    let mut kept: Vec<String> = Vec::new();
    let mut i: usize = 0;
    while i < entries.len()
        invariant
            es == entries@,
            i <= es.len(),
            kept@ == glob_kept(plan.file_pattern@, es.subrange(0, i as int)),
        decreases es.len() - i,
    {
        proof {
            assert(es.subrange(0, i + 1).drop_last() == es.subrange(0, i as int));
            assert(es.subrange(0, i + 1).last() == es[i as int]);
        }
        if wildcard_match(plan.file_pattern.as_str(), entries[i].name.as_str()) {
            kept.push(entries[i].path.clone());
        }
        i = i + 1;
    }
    proof {
        assert(es.subrange(0, es.len() as int) == es);
    }
    text::sort_by_name(kept)
}

} // verus!
