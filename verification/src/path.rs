//! Path and `PATH`-variable helpers.
//!
//! Paths are handled as text, the way Windows writes them: `\` joins
//! components and both `\` and `/` separate them.

use vstd::prelude::*;

use crate::text;

verus! {

/// A path separator.
pub open spec fn is_sep(c: char) -> bool {
    c == '/' || c == '\\'
}

/// `p` starts with a drive prefix: an ASCII letter and `:`.
pub open spec fn drive_prefix(p: Seq<char>) -> bool {
    p.len() >= 2 && p[1] == ':' && (('a' <= p[0] && p[0] <= 'z') || ('A' <= p[0] && p[0] <= 'Z'))
}

/// The first position from `i` on that holds a separator, or the length
/// of `s` when there is none.
pub open spec fn next_sep(s: Seq<char>, i: int) -> int
    decreases s.len() - i,
{
    if i < 0 || i >= s.len() {
        s.len() as int
    } else if is_sep(s[i]) {
        i
    } else {
        next_sep(s, i + 1)
    }
}

/// `base` starts with a UNC prefix `\\server\share` (not a verbatim
/// `\\?\` or device `\\.\` prefix).
pub open spec fn unc_base(base: Seq<char>) -> bool {
    base.len() >= 3 && base[0] == '\\' && base[1] == '\\' && base[2] != '?' && base[2] != '.'
}

/// The length of the UNC prefix `\\server\share` of `base`: up to the
/// separator after the share name, or all of `base`.
pub open spec fn unc_prefix_len(base: Seq<char>) -> int {
    let a = next_sep(base, 2);
    if a >= base.len() {
        base.len() as int
    } else {
        next_sep(base, a + 1)
    }
}

/// `base` joined with `part`, as `Path::join` does on Windows for drive
/// and UNC paths: a `part` with a drive, or starting with two separators,
/// stands alone; a `part` starting with one separator is put on the drive
/// of `base`, or on its `\\server\share` prefix (alone when `base` has
/// neither); otherwise a `\` is put between the two unless `base` is
/// empty, is a bare drive (`C:`) or already ends with a separator.
pub open spec fn join(base: Seq<char>, part: Seq<char>) -> Seq<char> {
    if drive_prefix(part) || (part.len() >= 2 && is_sep(part[0]) && is_sep(part[1])) {
        part
    } else if part.len() > 0 && is_sep(part[0]) {
        if drive_prefix(base) {
            base.subrange(0, 2) + part
        } else if unc_base(base) {
            base.subrange(0, unc_prefix_len(base)) + part
        } else {
            part
        }
    } else if base.len() == 0 || (base.len() == 2 && drive_prefix(base)) || is_sep(base.last()) {
        base + part
    } else {
        base + seq!['\\'] + part
    }
}

/// The first position from `i` on in `v` that holds a separator.
fn next_sep_exec(v: &Vec<char>, i: usize) -> (r: usize)
    requires
        i <= v@.len(),
    ensures
        r as int == next_sep(v@, i as int),
        r <= v@.len(),
{
    let mut k = i;
    while k < v.len() && v[k] != '/' && v[k] != '\\'
        invariant
            i <= k <= v@.len(),
            next_sep(v@, i as int) == next_sep(v@, k as int),
        decreases v@.len() - k,
    {
        k = k + 1;
    }
    k
}

fn is_sep_exec(c: char) -> (r: bool)
    ensures
        r == is_sep(c),
{
    c == '/' || c == '\\'
}

fn is_letter_exec(c: char) -> (r: bool)
    ensures
        r == (('a' <= c && c <= 'z') || ('A' <= c && c <= 'Z')),
{
    ('a' <= c && c <= 'z') || ('A' <= c && c <= 'Z')
}

/// `base` joined with `part`.
pub fn join_exec(base: &str, part: &str) -> (r: String)
    ensures
        r@ == join(base@, part@),
{
    let pv = text::to_chars(part);
    let bv = text::to_chars(base);
    let pl = pv.len();
    let bl = bv.len();
    let part_drive = pl >= 2 && pv[1] == ':' && is_letter_exec(pv[0]);
    let base_drive = bl >= 2 && bv[1] == ':' && is_letter_exec(bv[0]);
    if part_drive || (pl >= 2 && is_sep_exec(pv[0]) && is_sep_exec(pv[1])) {
        String::from_str(part)
    } else if pl > 0 && is_sep_exec(pv[0]) {
        if base_drive {
            let mut r = text::string_of_range(&bv, 0, 2);
            r.append(part);
            r
        } else if bl >= 3 && bv[0] == '\\' && bv[1] == '\\' && bv[2] != '?' && bv[2] != '.' {
            let a = next_sep_exec(&bv, 2);
            let end = if a >= bl {
                bl
            } else {
                next_sep_exec(&bv, a + 1)
            };
            let mut r = text::string_of_range(&bv, 0, end);
            r.append(part);
            r
        } else {
            String::from_str(part)
        }
    } else if bl == 0 || (bl == 2 && base_drive) || is_sep_exec(bv[bl - 1]) {
        let mut r = String::from_str(base);
        r.append(part);
        r
    } else {
        let mut r = String::from_str(base);
        r.append("\\");
        r.append(part);
        proof {
            reveal_strlit("\\");
        }
        r
    }
}

/// The text after the last path separator (all of it if there is none),
/// as the first item of `str::rsplit(['/', '\\'])`.
pub open spec fn last_segment(s: Seq<char>) -> Seq<char>
    decreases s.len(),
{
    if s.len() == 0 {
        s
    } else if is_sep(s.last()) {
        Seq::empty()
    } else {
        last_segment(s.drop_last()).push(s.last())
    }
}

pub proof fn lemma_last_segment(s: Seq<char>, k: int)
    requires
        -1 <= k < s.len(),
        k >= 0 ==> is_sep(s[k]),
        forall|j: int| k < j < s.len() ==> !is_sep(s[j]),
    ensures
        last_segment(s) == s.subrange(k + 1, s.len() as int),
    decreases s.len(),
{
    if s.len() > 0 {
        if k == s.len() - 1 {
            assert(s.subrange(k + 1, s.len() as int) =~= Seq::<char>::empty());
        } else {
            lemma_last_segment(s.drop_last(), k);
            assert(s.subrange(k + 1, s.len() as int) =~= s.drop_last().subrange(k + 1, s.len() - 1).push(s.last()));
        }
    } else {
        assert(s.subrange(0, 0) =~= s);
    }
}

/// The text after the last path separator.
pub fn last_segment_exec(s: &str) -> (r: String)
    ensures
        r@ == last_segment(s@),
{
    let v = text::to_chars(s);
    let mut k: usize = v.len();
    while k > 0 && !is_sep_exec(v[k - 1])
        invariant
            k <= v@.len(),
            forall|j: int| k <= j < v@.len() ==> !is_sep(v@[j]),
        decreases k,
    {
        k = k - 1;
    }
    proof {
        lemma_last_segment(v@, k - 1);
    }
    text::string_of_range(&v, k, v.len())
}

/// The last component of a path, as `Path::file_name`: trailing separators
/// and `.` components are skipped, and a path ending in `..` (or an empty
/// one) has none.
pub open spec fn file_name(p: Seq<char>) -> Option<Seq<char>>
    decreases p.len(),
{
    if p.len() == 0 {
        None
    } else if is_sep(p.last()) {
        file_name(p.drop_last())
    } else {
        let seg = last_segment(p);
        if seg == seq!['.'] {
            file_name(p.drop_last())
        } else if seg == seq!['.', '.'] {
            None
        } else {
            Some(seg)
        }
    }
}

/// The part of a file name before its extension, as `Path::file_stem` on
/// a file name: all of it when it has no `.` or only a leading one, or is
/// `..`; else what comes before the last `.`.
pub open spec fn stem_of(name: Seq<char>) -> Seq<char> {
    if name == seq!['.', '.'] {
        name
    } else {
        match last_dot(name) {
            Some(i) => if i == 0 { name } else { name.subrange(0, i) },
            None => name,
        }
    }
}

/// The position of the last `.` in `s`.
pub open spec fn last_dot(s: Seq<char>) -> Option<int>
    decreases s.len(),
{
    if s.len() == 0 {
        None
    } else if s.last() == '.' {
        Some(s.len() - 1)
    } else {
        last_dot(s.drop_last())
    }
}

/// `Path::file_stem`.
pub open spec fn file_stem(p: Seq<char>) -> Option<Seq<char>> {
    match file_name(p) {
        Some(n) => Some(stem_of(n)),
        None => None,
    }
}

/// `last_dot` finds the last `.`.
pub proof fn lemma_last_dot(s: Seq<char>, k: int)
    requires
        -1 <= k < s.len(),
        k >= 0 ==> s[k] == '.',
        forall|j: int| k < j < s.len() ==> s[j] != '.',
    ensures
        last_dot(s) == if k >= 0 { Some(k) } else { None::<int> },
    decreases s.len(),
{
    if s.len() > 0 && k < s.len() - 1 {
        lemma_last_dot(s.drop_last(), k);
    }
}

fn is_two_dots(v: &Vec<char>) -> (r: bool)
    ensures
        r == (v@ == seq!['.', '.']),
{
    let r = v.len() == 2 && v[0] == '.' && v[1] == '.';
    proof {
        if v@.len() == 2 && v@[0] == '.' && v@[1] == '.' {
            assert(v@ =~= seq!['.', '.']);
        }
    }
    r
}

/// The last component of a path.
pub fn file_name_exec(p: &str) -> (r: Option<String>)
    ensures
        r.deep_view() == file_name(p@),
{
    let v = text::to_chars(p);
    let mut end: usize = v.len();
    proof {
        assert(v@.subrange(0, v@.len() as int) == v@);
    }
    loop
        invariant
            end <= v@.len(),
            file_name(p@) == file_name(v@.subrange(0, end as int)),
            v@ == p@,
        decreases end,
    {
        let ghost cur = v@.subrange(0, end as int);
        if end == 0 {
            return None;
        }
        if is_sep_exec(v[end - 1]) {
            proof {
                assert(cur.drop_last() == v@.subrange(0, end - 1));
            }
            end = end - 1;
        } else {
            let mut k: usize = end;
            while k > 0 && !is_sep_exec(v[k - 1])
                invariant
                    k <= end <= v@.len(),
                    forall|j: int| k <= j < end ==> !is_sep(v@[j]),
                decreases k,
            {
                k = k - 1;
            }
            proof {
                lemma_last_segment(cur, k - 1);
                assert(cur.subrange(k as int, end as int) == v@.subrange(k as int, end as int));
            }
            let seg = text::string_of_range(&v, k, end);
            let segv = text::to_chars(seg.as_str());
            if segv.len() == 1 && segv[0] == '.' {
                proof {
                    assert(segv@ =~= seq!['.']);
                    assert(cur.drop_last() == v@.subrange(0, end - 1));
                }
                end = end - 1;
            } else if is_two_dots(&segv) {
                return None;
            } else {
                proof {
                    if segv@ == seq!['.'] {
                        assert(segv@.len() == 1 && segv@[0] == '.');
                    }
                }
                return Some(seg);
            }
        }
    }
}

/// `Path::file_stem`.
pub fn file_stem_exec(p: &str) -> (r: Option<String>)
    ensures
        r.deep_view() == file_stem(p@),
{
    match file_name_exec(p) {
        None => None,
        Some(name) => {
            let v = text::to_chars(name.as_str());
            if is_two_dots(&v) {
                return Some(name);
            }
            let mut k: usize = v.len();
            while k > 0 && v[k - 1] != '.'
                invariant
                    k <= v@.len(),
                    forall|j: int| k <= j < v@.len() ==> v@[j] != '.',
                decreases k,
            {
                k = k - 1;
            }
            proof {
                lemma_last_dot(v@, k - 1);
            }
            if k <= 1 {
                Some(name)
            } else {
                Some(text::string_of_range(&v, 0, k - 1))
            }
        },
    }
}


/// The entries of a `PATH`-style value, split at `;`.
pub open spec fn path_entries(value: Seq<char>) -> Seq<Seq<char>> {
    text::split(value, ';')
}

/// `value` lists `entry`, ignoring ASCII case.
pub open spec fn lists_entry(value: Seq<char>, entry: Seq<char>) -> bool {
    exists|i: int| 0 <= i < path_entries(value).len() && text::eq_ignore_case(#[trigger] path_entries(value)[i], entry)
}

/// The user `PATH` after adding `entry`: none when `current` already
/// lists it (nothing to change); `entry` alone when `current` is blank;
/// `current;entry` otherwise.
pub open spec fn path_with_entry(current: Seq<char>, entry: Seq<char>) -> Option<Seq<char>> {
    if lists_entry(current, entry) {
        None
    } else if text::trim(current).len() == 0 {
        Some(entry)
    } else {
        Some(current + seq![';'] + entry)
    }
}

/// The user `PATH` after removing every entry equal to `entry` (ignoring
/// ASCII case); none when there is no `PATH` to change.
pub open spec fn path_without_entry(current: Option<Seq<char>>, entry: Seq<char>) -> Option<Seq<char>> {
    match current {
        Some(c) => Some(
            text::join(path_entries(c).filter(|p: Seq<char>| !text::eq_ignore_case(p, entry)), seq![';']),
        ),
        None => None,
    }
}

/// The new value of the user `PATH` when `entry` is added to `current`,
/// or none if `current` already lists it.
pub fn add_user_path_entry(current: &str, entry: &str) -> (r: Option<String>)
    ensures
        r.deep_view() == path_with_entry(current@, entry@),
{
    let parts = text::split_exec(current, ';');
    let ghost ps = text::views(parts@);
    let mut i: usize = 0;
    while i < parts.len()
        invariant
            ps == text::views(parts@),
            ps == path_entries(current@),
            i <= parts@.len(),
            forall|j: int| 0 <= j < i ==> !text::eq_ignore_case(#[trigger] ps[j], entry@),
        decreases parts@.len() - i,
    {
        if text::eq_ignore_case_exec(parts[i].as_str(), entry) {
            assert(text::eq_ignore_case(ps[i as int], entry@));
            return None;
        }
        i = i + 1;
    }
    let t = text::trim_exec(current);
    if t.unicode_len() == 0 {
        Some(String::from_str(entry))
    } else {
        let mut r = String::from_str(current);
        r.append(";");
        r.append(entry);
        proof {
            reveal_strlit(";");
            assert(";"@ =~= seq![';']);
        }
        Some(r)
    }
}

/// The new value of the user `PATH` when every entry equal to `entry`
/// (ignoring ASCII case) is removed; none when there is no `PATH`.
pub fn remove_user_path_entry(current: Option<&str>, entry: &str) -> (r: Option<String>)
    ensures
        r.deep_view() == path_without_entry(
            match current {
                Some(c) => Some(c@),
                None => None,
            },
            entry@,
        ),
{
    let current = match current {
        Some(c) => c,
        None => {
            return None;
        },
    };
    let parts = text::split_exec(current, ';');
    let ghost ps = text::views(parts@);
    let mut kept: Vec<String> = Vec::new();
    let mut i: usize = 0;
    while i < parts.len()
        invariant
            ps == text::views(parts@),
            i <= parts@.len(),
            text::views(kept@) == ps.subrange(0, i as int).filter(|p: Seq<char>| !text::eq_ignore_case(p, entry@)),
        decreases parts@.len() - i,
    {
        proof {
            assert(ps.subrange(0, i + 1) == ps.subrange(0, i as int).push(ps[i as int]));
            ps.subrange(0, i as int).lemma_filter_push(ps[i as int], |p: Seq<char>| !text::eq_ignore_case(p, entry@));
        }
        if !text::eq_ignore_case_exec(parts[i].as_str(), entry) {
            let ghost before = text::views(kept@);
            kept.push(parts[i].clone());
            assert(text::views(kept@) =~= before.push(ps[i as int]));
        }
        i = i + 1;
    }
    proof {
        assert(ps.subrange(0, ps.len() as int) == ps);
        reveal_strlit(";");
        assert(";"@ =~= seq![';']);
    }
    Some(text::join_exec(&kept, ";"))
}

/// Adding an entry makes `PATH` list it, and adding it again changes
/// nothing.
pub proof fn lemma_add_path_entry_lists(current: Seq<char>, entry: Seq<char>)
    requires
        !text::contains(entry, seq![';']),
    ensures
        match path_with_entry(current, entry) {
            Some(new) => lists_entry(new, entry) && path_with_entry(new, entry) is None,
            None => lists_entry(current, entry),
        },
{
    match path_with_entry(current, entry) {
        Some(new) => {
            let es = path_entries(new);
            text::lemma_split_no_sep(entry, ';');
            if text::trim(current).len() == 0 {
                assert(es == seq![entry]);
                assert(text::eq_ignore_case(es[0], entry));
            } else {
                text::lemma_split_append(current, entry, ';');
                assert(es.last() == entry);
                assert(text::eq_ignore_case(es[es.len() - 1], entry));
            }
        },
        None => {},
    }
}

/// Removing an entry that was just added to a non-blank `PATH` that did
/// not list it gives back the `PATH` as it was.
pub proof fn lemma_remove_after_add(current: Seq<char>, entry: Seq<char>)
    requires
        !text::contains(entry, seq![';']),
        !lists_entry(current, entry),
        text::trim(current).len() > 0,
    ensures
        path_without_entry(path_with_entry(current, entry), entry) == Some(current),
{
    let new = current + seq![';'] + entry;
    text::lemma_split_no_sep(entry, ';');
    text::lemma_split_append(current, entry, ';');
    let pc = path_entries(current);
    let f = |p: Seq<char>| !text::eq_ignore_case(p, entry);
    assert(path_entries(new) == pc.push(entry));
    pc.lemma_filter_push(entry, f);
    assert(!f(entry));
    lemma_filter_all(pc, f);
    text::lemma_join_split(current, ';');
}

proof fn lemma_filter_all(s: Seq<Seq<char>>, f: spec_fn(Seq<char>) -> bool)
    requires
        forall|i: int| 0 <= i < s.len() ==> f(#[trigger] s[i]),
    ensures
        s.filter(f) == s,
    decreases s.len(),
{
    reveal_with_fuel(Seq::filter, 1);
    if s.len() > 0 {
        lemma_filter_all(s.drop_last(), f);
        assert(f(s[s.len() - 1]));
        assert(s.drop_last().push(s.last()) == s);
    }
}

/// A UNC path (`\\\\server\\share\\...`).
pub open spec fn unc(url: Seq<char>) -> bool {
    text::starts_with(url, seq!['\\', '\\'])
}

/// `url` starts with a drive (`C:\` or `C:/`). The drive letter must be
/// a single byte: the test looks at the second and third byte of the text.
pub open spec fn has_drive(url: Seq<char>) -> bool {
    url.len() >= 3 && (url[0] as u32) < 128 && url[1] == ':' && (url[2] == '\\' || url[2] == '/')
}

/// A local path rather than a remote URL: a UNC path, a path with a
/// drive, or any text without a scheme separator `://`.
pub open spec fn local(url: Seq<char>) -> bool {
    unc(url) || has_drive(url) || !text::contains(url, "://"@)
}

/// Whether `url` looks like a UNC path.
pub fn is_unc_path(url: &str) -> (r: bool)
    ensures
        r == unc(url@),
{
    let r = text::starts_with_exec(url, "\\\\");
    proof {
        reveal_strlit("\\\\");
        assert("\\\\"@ =~= seq!['\\', '\\']);
    }
    r
}

/// Whether `url` looks like a local filesystem path rather than a remote
/// URL.
pub fn is_local_path(url: &str) -> (r: bool)
    ensures
        r == local(url@),
{
    if is_unc_path(url) {
        return true;
    }
    let v = text::to_chars(url);
    if v.len() >= 3 && (v[0] as u32) < 128 && v[1] == ':' && (v[2] == '\\' || v[2] == '/') {
        return true;
    }
    !text::contains_exec(url, "://")
}

/// The value in a line of `reg query` output: the text after the type
/// token (`REG_EXPAND_SZ`, else `REG_SZ`), trimmed.
pub open spec fn reg_line_value(line: Seq<char>) -> Option<Seq<char>> {
    match text::find_str(line, "REG_EXPAND_SZ"@) {
        Some(i) => Some(text::trim(line.subrange(i + 13, line.len() as int))),
        None => match text::find_str(line, "REG_SZ"@) {
            Some(i) => Some(text::trim(line.subrange(i + 6, line.len() as int))),
            None => None,
        },
    }
}

/// The value of the first line that has one.
pub open spec fn reg_value_in(lines: Seq<Seq<char>>) -> Option<Seq<char>>
    decreases lines.len(),
{
    if lines.len() == 0 {
        None
    } else {
        match reg_line_value(lines[0]) {
            Some(v) => Some(v),
            None => reg_value_in(lines.drop_first()),
        }
    }
}

fn reg_line_value_exec(line: &str) -> (r: Option<String>)
    ensures
        r.deep_view() == reg_line_value(line@),
{
    proof {
        reveal_strlit("REG_EXPAND_SZ");
        reveal_strlit("REG_SZ");
    }
    let lv = text::to_chars(line);
    let _n = lv.len();
    proof {
        assert(lv@.subrange(0, lv@.len() as int) == lv@);
    }
    let tokens = text::to_chars("REG_EXPAND_SZ");
    match text::find_str_from(&lv, 0, &tokens) {
        Some(i) => {
            let rest = text::string_of_range(&lv, i + 13, lv.len());
            return Some(text::trim_exec(rest.as_str()));
        },
        None => {},
    }
    let token = text::to_chars("REG_SZ");
    match text::find_str_from(&lv, 0, &token) {
        Some(i) => {
            let rest = text::string_of_range(&lv, i + 6, lv.len());
            Some(text::trim_exec(rest.as_str()))
        },
        None => None,
    }
}

/// The value reported by `reg query <key> /v <name>`: from the first
/// output line that names a string type, the text after the type, trimmed.
pub fn reg_query_value(output: &str) -> (r: Option<String>)
    ensures
        r.deep_view() == reg_value_in(text::split(output@, '\n')),
{
    let lines = text::split_exec(output, '\n');
    let ghost ls = text::views(lines@);
    let mut i: usize = 0;
    proof {
        assert(ls.subrange(0, ls.len() as int) == ls);
    }
    while i < lines.len()
        invariant
            ls == text::views(lines@),
            ls == text::split(output@, '\n'),
            i <= lines@.len(),
            reg_value_in(ls) == reg_value_in(ls.subrange(i as int, ls.len() as int)),
        decreases lines@.len() - i,
    {
        proof {
            let t = ls.subrange(i as int, ls.len() as int);
            assert(t.drop_first() == ls.subrange(i + 1, ls.len() as int));
            assert(t[0] == lines@[i as int]@);
        }
        match reg_line_value_exec(lines[i].as_str()) {
            Some(v) => {
                return Some(v);
            },
            None => {},
        }
        i = i + 1;
    }
    None
}

/// The LAST root: the `LAST` environment variable unless it is unset or
/// blank, else `last` under the home directory (or under `.` when there is
/// no home directory).
pub open spec fn root_of(env_last: Option<Seq<char>>, home: Option<Seq<char>>) -> Seq<char> {
    match env_last {
        Some(r) if text::trim(r).len() > 0 => r,
        _ => join(
            match home {
                Some(h) => h,
                None => seq!['.'],
            },
            "last"@,
        ),
    }
}

/// The LAST root from the value of `LAST` and the home directory.
pub fn root_from(env_last: Option<&str>, home: Option<&str>) -> (r: String)
    ensures
        r@ == root_of(
            match env_last {
                Some(e) => Some(e@),
                None => None,
            },
            match home {
                Some(h) => Some(h@),
                None => None,
            },
        ),
{
    match env_last {
        Some(e) => {
            let t = text::trim_exec(e);
            if t.unicode_len() > 0 {
                return String::from_str(e);
            }
        },
        None => {},
    }
    proof {
        reveal_strlit(".");
    }
    match home {
        Some(h) => join_exec(h, "last"),
        None => join_exec(".", "last"),
    }
}

/// The extension of a file name, as `Path::extension`: what follows its
/// last `.`, none when it has no `.` or only a leading one.
pub open spec fn extension_of(name: Seq<char>) -> Option<Seq<char>> {
    if name == seq!['.', '.'] {
        None
    } else {
        match last_dot(name) {
            Some(i) => if i == 0 {
                None
            } else {
                Some(name.subrange(i + 1, name.len() as int))
            },
            None => None,
        }
    }
}

/// `Path::extension`: the extension of the path's last component.
pub open spec fn extension(p: Seq<char>) -> Option<Seq<char>> {
    match file_name(p) {
        Some(n) => extension_of(n),
        None => None,
    }
}

/// `Path::extension`.
pub fn extension_exec(p: &str) -> (r: Option<String>)
    ensures
        r.deep_view() == extension(p@),
{
    match file_name_exec(p) {
        None => None,
        Some(name) => {
            let v = text::to_chars(name.as_str());
            if is_two_dots(&v) {
                return None;
            }
            let mut k: usize = v.len();
            while k > 0 && v[k - 1] != '.'
                invariant
                    k <= v@.len(),
                    forall|j: int| k <= j < v@.len() ==> v@[j] != '.',
                decreases k,
            {
                k = k - 1;
            }
            proof {
                lemma_last_dot(v@, k - 1);
            }
            if k <= 1 {
                None
            } else {
                Some(text::string_of_range(&v, k, v.len()))
            }
        },
    }
}

/// The home directory, or `.` when there is none.
pub open spec fn home_or_dot(h: Option<Seq<char>>) -> Seq<char> {
    match h {
        Some(x) => x,
        None => seq!['.'],
    }
}

/// Calls `dirs::home_dir` and writes the directory as text. Nothing is
/// claimed of it: it is the user's profile directory on this machine, if
/// there is one.
#[verifier::external_body]
pub(crate) fn home_dir() -> (r: Option<String>) {
    dirs::home_dir().map(|p| p.to_string_lossy().into_owned())
}

/// `%USERPROFILE%\last`: `last` under the home directory, or under `.`
/// without one.
pub fn default_root() -> (r: String)
    ensures
        exists|h: Option<Seq<char>>| r@ == root_of(None, h),
{
    let home = home_dir();
    let h: Option<&str> = match &home {
        Some(x) => Some(x.as_str()),
        None => None,
    };
    let r = root_from(None, h);
    assert(r@ == root_of(None, home.deep_view()));
    r
}

/// The LAST root when none is given on the command line: the `LAST`
/// environment variable unless it is unset or blank, else the default
/// root.
pub fn root_or_default(env_last: Option<&str>) -> (r: String)
    ensures
        (env_last matches Some(e) && text::trim(e@).len() > 0) ==> r@ == env_last->Some_0@,
        !(env_last matches Some(e) && text::trim(e@).len() > 0) ==> exists|h: Option<Seq<char>>| r@ == root_of(None, h),
{
    match env_last {
        Some(e) => {
            let t = text::trim_exec(e);
            if t.unicode_len() > 0 {
                return String::from_str(e);
            }
        },
        None => {},
    }
    default_root()
}

} // verus!
