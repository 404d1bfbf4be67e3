//! Character-level string operations with their specifications.
//!
//! Strings are modelled by their view, a `Seq<char>`. The functions here
//! mirror the handful of `str` operations the package manager relies on
//! (ASCII case folding, trimming, splitting, prefix/suffix tests, joining).

use vstd::prelude::*;
use vstd::multiset::Multiset;

verus! {

/// ASCII lower-casing of one character; other characters are unchanged.
pub open spec fn lower_char(c: char) -> char {
    if 'A' <= c && c <= 'Z' {
        ((c as u32) + 32) as char
    } else {
        c
    }
}

/// ASCII lower-casing of a whole string.
pub open spec fn lower(s: Seq<char>) -> Seq<char> {
    s.map_values(|c: char| lower_char(c))
}

/// Equality up to ASCII case.
pub open spec fn eq_ignore_case(a: Seq<char>, b: Seq<char>) -> bool {
    lower(a) == lower(b)
}

/// `s` begins with `p`.
pub open spec fn starts_with(s: Seq<char>, p: Seq<char>) -> bool {
    p.len() <= s.len() && s.subrange(0, p.len() as int) == p
}

/// `s` ends with `p`.
pub open spec fn ends_with(s: Seq<char>, p: Seq<char>) -> bool {
    p.len() <= s.len() && s.subrange(s.len() - p.len(), s.len() as int) == p
}

/// `p` occurs in `s` starting at position `i`.
pub open spec fn occurs_at(s: Seq<char>, p: Seq<char>, i: int) -> bool {
    0 <= i && i + p.len() <= s.len() && s.subrange(i, i + p.len()) == p
}

/// `p` occurs somewhere in `s`.
pub open spec fn contains(s: Seq<char>, p: Seq<char>) -> bool {
    exists|i: int| occurs_at(s, p, i)
}

/// Calls `String::push` (std). Claimed, as its documentation says: the
/// character is appended to the string.
#[verifier::external_body]
fn push_char(s: &mut String, c: char)
    ensures
        final(s)@ == old(s)@.push(c),
{
    s.push(c)
}

/// The characters of `s`, in order.
pub fn to_chars(s: &str) -> (r: Vec<char>)
    ensures
        r@ == s@,
{
    let n = s.unicode_len();
    let mut r: Vec<char> = Vec::new();
    let mut i: usize = 0;
    while i < n
        invariant
            n == s@.len(),
            i <= n,
            r@ == s@.subrange(0, i as int),
        decreases n - i,
    {
        r.push(s.get_char(i));
        i = i + 1;
    }
    r
}

/// The string made of the characters of `v`.
pub fn from_chars(v: &[char]) -> (r: String)
    ensures
        r@ == v@,
{
    let mut r = String::new();
    let mut i: usize = 0;
    while i < v.len()
        invariant
            i <= v@.len(),
            r@ == v@.subrange(0, i as int),
        decreases v@.len() - i,
    {
        push_char(&mut r, v[i]);
        i = i + 1;
    }
    r
}

/// ASCII lower-casing of one character.
pub fn lower_char_exec(c: char) -> (r: char)
    ensures
        r == lower_char(c),
{
    if 'A' <= c && c <= 'Z' {
        ((c as u8) + 32) as char
    } else {
        c
    }
}


/// Whitespace as `char::is_whitespace` defines it (the Unicode
/// `White_Space` property).
pub open spec fn is_ws(c: char) -> bool {
    ('\u{9}' <= c && c <= '\u{d}') || c == ' ' || c == '\u{85}' || c == '\u{a0}'
        || c == '\u{1680}' || ('\u{2000}' <= c && c <= '\u{200a}') || c == '\u{2028}'
        || c == '\u{2029}' || c == '\u{202f}' || c == '\u{205f}' || c == '\u{3000}'
}

/// `s` without its leading whitespace.
pub open spec fn trim_start(s: Seq<char>) -> Seq<char>
    decreases s.len(),
{
    if s.len() > 0 && is_ws(s[0]) {
        trim_start(s.drop_first())
    } else {
        s
    }
}

/// `s` without its trailing whitespace.
pub open spec fn trim_end(s: Seq<char>) -> Seq<char>
    decreases s.len(),
{
    if s.len() > 0 && is_ws(s.last()) {
        trim_end(s.drop_last())
    } else {
        s
    }
}

/// `s` without leading and trailing whitespace.
pub open spec fn trim(s: Seq<char>) -> Seq<char> {
    trim_end(trim_start(s))
}

/// Position of the first occurrence of `c` in `s`.
pub open spec fn index_of(s: Seq<char>, c: char) -> Option<int>
    decreases s.len(),
{
    if s.len() == 0 {
        None
    } else if s[0] == c {
        Some(0)
    } else {
        match index_of(s.drop_first(), c) {
            Some(i) => Some(i + 1),
            None => None,
        }
    }
}

/// The parts of `s` before and after the first `c`, as `str::split_once`.
pub open spec fn split_once(s: Seq<char>, c: char) -> Option<(Seq<char>, Seq<char>)> {
    match index_of(s, c) {
        Some(i) => Some((s.subrange(0, i), s.subrange(i + 1, s.len() as int))),
        None => None,
    }
}

/// The pieces of `s` between occurrences of `c`, as `str::split`.
pub open spec fn split(s: Seq<char>, c: char) -> Seq<Seq<char>>
    decreases s.len(),
{
    match index_of(s, c) {
        Some(i) => {
            if 0 <= i < s.len() {
                seq![s.subrange(0, i)] + split(s.subrange(i + 1, s.len() as int), c)
            } else {
                seq![s]
            }
        },
        None => seq![s],
    }
}

/// The pieces joined with `sep` between consecutive pieces.
pub open spec fn join(parts: Seq<Seq<char>>, sep: Seq<char>) -> Seq<char>
    decreases parts.len(),
{
    if parts.len() == 0 {
        Seq::empty()
    } else if parts.len() == 1 {
        parts[0]
    } else {
        join(parts.drop_last(), sep) + sep + parts.last()
    }
}

/// The views of a sequence of strings.
pub open spec fn views(v: Seq<String>) -> Seq<Seq<char>> {
    v.map_values(|s: String| s@)
}

/// `index_of` finds the first occurrence, and there is none when it says so.
pub proof fn lemma_index_of(s: Seq<char>, c: char)
    ensures
        match index_of(s, c) {
            Some(i) => 0 <= i < s.len() && s[i] == c && forall|j: int| 0 <= j < i ==> s[j] != c,
            None => forall|j: int| 0 <= j < s.len() ==> s[j] != c,
        },
    decreases s.len(),
{
    if s.len() > 0 && s[0] != c {
        lemma_index_of(s.drop_first(), c);
        assert forall|j: int| 0 < j < s.len() implies #[trigger] s[j] == s.drop_first()[j - 1] by {}
    }
}

/// The first occurrence of `c` from position `start` on.
fn find_from(v: &Vec<char>, start: usize, c: char) -> (r: Option<usize>)
    requires
        start <= v@.len(),
    ensures
        match r {
            Some(i) => start <= i < v@.len() && v@[i as int] == c && forall|j: int|
                start <= j < i ==> v@[j] != c,
            None => forall|j: int| start <= j < v@.len() ==> v@[j] != c,
        },
{
    let mut i = start;
    while i < v.len()
        invariant
            start <= i <= v@.len(),
            forall|j: int| start <= j < i ==> v@[j] != c,
        decreases v@.len() - i,
    {
        if v[i] == c {
            return Some(i);
        }
        i = i + 1;
    }
    None
}

/// `index_of` on a suffix, computed by scanning.
pub proof fn lemma_index_of_suffix(s: Seq<char>, start: int, c: char, r: Option<int>)
    requires
        0 <= start <= s.len(),
        match r {
            Some(i) => start <= i < s.len() && s[i] == c && forall|j: int| start <= j < i ==> s[j] != c,
            None => forall|j: int| start <= j < s.len() ==> s[j] != c,
        },
    ensures
        index_of(s.subrange(start, s.len() as int), c) == match r {
            Some(i) => Some(i - start),
            None => None::<int>,
        },
{
    let t = s.subrange(start, s.len() as int);
    lemma_index_of(t, c);
    match index_of(t, c) {
        Some(k) => {
            assert(t[k] == s[start + k]);
            match r {
                Some(i) => {
                    if k < i - start {
                        assert(s[start + k] != c);
                    } else if k > i - start {
                        assert(t[i - start] == s[i]);
                    }
                },
                None => {
                    assert(s[start + k] != c);
                },
            }
        },
        None => {
            match r {
                Some(i) => {
                    assert(t[i - start] == s[i]);
                },
                None => {},
            }
        },
    }
}

/// The string made of `v[start..end]`.
pub fn string_of_range(v: &Vec<char>, start: usize, end: usize) -> (r: String)
    requires
        start <= end <= v@.len(),
    ensures
        r@ == v@.subrange(start as int, end as int),
{
    let mut r = String::new();
    let mut i = start;
    while i < end
        invariant
            start <= i <= end <= v@.len(),
            r@ == v@.subrange(start as int, i as int),
        decreases end - i,
    {
        push_char(&mut r, v[i]);
        i = i + 1;
    }
    r
}

/// `str::split_once` with a character pattern.
pub fn split_once_exec(s: &str, c: char) -> (r: Option<(String, String)>)
    ensures
        match r {
            Some((a, b)) => split_once(s@, c) == Some((a@, b@)),
            None => split_once(s@, c) is None,
        },
{
    let v = to_chars(s);
    let found = find_from(&v, 0, c);
    proof {
        lemma_index_of_suffix(v@, 0, c, match found { Some(i) => Some(i as int), None => None });
        assert(v@.subrange(0, v@.len() as int) == v@);
    }
    match found {
        Some(i) => Some((string_of_range(&v, 0, i), string_of_range(&v, i + 1, v.len()))),
        None => None,
    }
}

fn split_from(v: &Vec<char>, start: usize, c: char) -> (r: Vec<String>)
    requires
        start <= v@.len(),
    ensures
        views(r@) == split(v@.subrange(start as int, v@.len() as int), c),
    decreases v@.len() - start,
{
    let n = v.len();
    let found = find_from(v, start, c);
    let ghost t = v@.subrange(start as int, v@.len() as int);
    proof {
        lemma_index_of_suffix(v@, start as int, c, match found { Some(i) => Some(i as int), None => None });
    }
    match found {
        Some(i) => {
            let first = string_of_range(v, start, i);
            let rest = split_from(v, i + 1, c);
            let mut r: Vec<String> = Vec::new();
            r.push(first);
            let mut k: usize = 0;
            while k < rest.len()
                invariant
                    k <= rest@.len(),
                    views(r@) == seq![v@.subrange(start as int, i as int)] + views(rest@).subrange(0, k as int),
                decreases rest@.len() - k,
            {
                let ghost before = r@;
                let x = rest[k].clone();
                r.push(x);
                proof {
                    assert(views(r@) =~= views(before).push(x@));
                    assert(views(rest@).subrange(0, k + 1) =~= views(rest@).subrange(0, k as int).push(x@));
                }
                k = k + 1;
            }
            proof {
                assert(views(rest@).subrange(0, rest@.len() as int) == views(rest@));
                assert(t.subrange(0, i - start) == v@.subrange(start as int, i as int));
                assert(t.subrange(i - start + 1, t.len() as int) == v@.subrange(i + 1, v@.len() as int));
            }
            r
        },
        None => {
            let mut r: Vec<String> = Vec::new();
            r.push(string_of_range(v, start, v.len()));
            r
        },
    }
}

/// `str::split` with a character pattern.
pub fn split_exec(s: &str, c: char) -> (r: Vec<String>)
    ensures
        views(r@) == split(s@, c),
{
    let v = to_chars(s);
    let r = split_from(&v, 0, c);
    proof {
        assert(v@.subrange(0, v@.len() as int) == v@);
    }
    r
}

/// The pieces joined with `sep`.
pub fn join_exec(parts: &Vec<String>, sep: &str) -> (r: String)
    ensures
        r@ == join(views(parts@), sep@),
{
    let mut r = String::new();
    let mut i: usize = 0;
    while i < parts.len()
        invariant
            i <= parts@.len(),
            r@ == join(views(parts@).subrange(0, i as int), sep@),
        decreases parts@.len() - i,
    {
        proof {
            let p = views(parts@).subrange(0, i + 1);
            assert(p.drop_last() == views(parts@).subrange(0, i as int));
        }
        if i > 0 {
            r.append(sep);
        }
        r.append(parts[i].as_str());
        i = i + 1;
    }
    proof {
        assert(views(parts@).subrange(0, parts@.len() as int) == views(parts@));
    }
    r
}

/// Whitespace test, as `char::is_whitespace`.
pub fn is_ws_exec(c: char) -> (r: bool)
    ensures
        r == is_ws(c),
{
    ('\u{9}' <= c && c <= '\u{d}') || c == ' ' || c == '\u{85}' || c == '\u{a0}' || c == '\u{1680}'
        || ('\u{2000}' <= c && c <= '\u{200a}') || c == '\u{2028}' || c == '\u{2029}' || c
        == '\u{202f}' || c == '\u{205f}' || c == '\u{3000}'
}

proof fn lemma_trim_start_from(s: Seq<char>, k: int)
    requires
        0 <= k <= s.len(),
        forall|j: int| 0 <= j < k ==> is_ws(s[j]),
    ensures
        trim_start(s) == trim_start(s.subrange(k, s.len() as int)),
    decreases k,
{
    if k > 0 {
        assert(is_ws(s[0]));
        lemma_trim_start_from(s.drop_first(), k - 1);
        assert(s.drop_first().subrange(k - 1, s.drop_first().len() as int) == s.subrange(k, s.len() as int));
    } else {
        assert(s.subrange(0, s.len() as int) == s);
    }
}

proof fn lemma_trim_end_to(s: Seq<char>, k: int)
    requires
        0 <= k <= s.len(),
        forall|j: int| k <= j < s.len() ==> is_ws(s[j]),
    ensures
        trim_end(s) == trim_end(s.subrange(0, k)),
    decreases s.len() - k,
{
    if k < s.len() {
        assert(is_ws(s.last()));
        lemma_trim_end_to(s.drop_last(), k);
        assert(s.drop_last().subrange(0, k) == s.subrange(0, k));
    } else {
        assert(s.subrange(0, k) == s);
    }
}

/// `str::trim_start`.
pub fn trim_start_exec(s: &str) -> (r: String)
    ensures
        r@ == trim_start(s@),
{
    let v = to_chars(s);
    let mut k: usize = 0;
    while k < v.len() && is_ws_exec(v[k])
        invariant
            k <= v@.len(),
            forall|j: int| 0 <= j < k ==> is_ws(v@[j]),
        decreases v@.len() - k,
    {
        k = k + 1;
    }
    proof {
        lemma_trim_start_from(v@, k as int);
    }
    string_of_range(&v, k, v.len())
}

/// `str::trim`.
pub fn trim_exec(s: &str) -> (r: String)
    ensures
        r@ == trim(s@),
{
    let t = trim_start_exec(s);
    let v = to_chars(t.as_str());
    let mut k: usize = v.len();
    while k > 0 && is_ws_exec(v[k - 1])
        invariant
            k <= v@.len(),
            forall|j: int| k <= j < v@.len() ==> is_ws(v@[j]),
        decreases k,
    {
        k = k - 1;
    }
    proof {
        lemma_trim_end_to(v@, k as int);
    }
    string_of_range(&v, 0, k)
}

/// ASCII lower-casing of a string, as `str::to_ascii_lowercase`.
pub fn lower_exec(s: &str) -> (r: String)
    ensures
        r@ == lower(s@),
{
    let v = to_chars(s);
    let mut r = String::new();
    let mut i: usize = 0;
    while i < v.len()
        invariant
            i <= v@.len(),
            r@ == lower(v@.subrange(0, i as int)),
        decreases v@.len() - i,
    {
        proof {
            assert(v@.subrange(0, i + 1) == v@.subrange(0, i as int).push(v@[i as int]));
        }
        push_char(&mut r, lower_char_exec(v[i]));
        i = i + 1;
    }
    proof {
        assert(v@.subrange(0, v@.len() as int) == v@);
    }
    r
}

/// Equality up to ASCII case, as `str::eq_ignore_ascii_case`.
pub fn eq_ignore_case_exec(a: &str, b: &str) -> (r: bool)
    ensures
        r == eq_ignore_case(a@, b@),
{
    let x = lower_exec(a);
    let y = lower_exec(b);
    x == y
}

/// Exact string equality.
pub fn str_eq(a: &str, b: &str) -> (r: bool)
    ensures
        r == (a@ == b@),
{
    let x = String::from_str(a);
    let y = String::from_str(b);
    x == y
}

/// Prefix test, as `str::starts_with`.
pub fn starts_with_exec(s: &str, p: &str) -> (r: bool)
    ensures
        r == starts_with(s@, p@),
{
    let v = to_chars(s);
    let w = to_chars(p);
    if w.len() > v.len() {
        return false;
    }
    let mut i: usize = 0;
    while i < w.len()
        invariant
            v@ == s@,
            w@ == p@,
            w@.len() <= v@.len(),
            i <= w@.len(),
            forall|j: int| 0 <= j < i ==> v@[j] == w@[j],
        decreases w@.len() - i,
    {
        if v[i] != w[i] {
            assert(v@.subrange(0, w@.len() as int)[i as int] != w@[i as int]);
            return false;
        }
        i = i + 1;
    }
    assert(v@.subrange(0, w@.len() as int) == w@);
    true
}

/// Suffix test, as `str::ends_with`.
pub fn ends_with_exec(s: &str, p: &str) -> (r: bool)
    ensures
        r == ends_with(s@, p@),
{
    let v = to_chars(s);
    let w = to_chars(p);
    if w.len() > v.len() {
        return false;
    }
    let off = v.len() - w.len();
    let mut i: usize = 0;
    while i < w.len()
        invariant
            v@ == s@,
            w@ == p@,
            w@.len() <= v@.len(),
            off + w@.len() == v@.len(),
            v@.len() <= usize::MAX,
            i <= w@.len(),
            forall|j: int| 0 <= j < i ==> v@[off + j] == w@[j],
        decreases w@.len() - i,
    {
        if v[off + i] != w[i] {
            assert(v@.subrange(off as int, v@.len() as int)[i as int] != w@[i as int]);
            return false;
        }
        i = i + 1;
    }
    assert(v@.subrange(off as int, v@.len() as int) == w@);
    true
}

fn occurs_at_exec(v: &Vec<char>, w: &Vec<char>, i: usize) -> (r: bool)
    requires
        i + w@.len() <= v@.len(),
    ensures
        r == occurs_at(v@, w@, i as int),
{
    let _len = v.len();
    let mut k: usize = 0;
    while k < w.len()
        invariant
            i + w@.len() <= v@.len(),
            v@.len() <= usize::MAX,
            k <= w@.len(),
            forall|j: int| 0 <= j < k ==> v@[i + j] == w@[j],
        decreases w@.len() - k,
    {
        if v[i + k] != w[k] {
            assert(v@.subrange(i as int, i + w@.len())[k as int] != w@[k as int]);
            return false;
        }
        k = k + 1;
    }
    assert(v@.subrange(i as int, i + w@.len()) == w@);
    true
}

/// Substring test, as `str::contains`.
pub fn contains_exec(s: &str, p: &str) -> (r: bool)
    ensures
        r == contains(s@, p@),
{
    let v = to_chars(s);
    let w = to_chars(p);
    if w.len() > v.len() {
        return false;
    }
    let n = v.len() - w.len();
    let mut i: usize = 0;
    loop
        invariant
            v@ == s@,
            w@ == p@,
            n + w@.len() == v@.len(),
            i <= n,
            forall|j: int| 0 <= j < i ==> !occurs_at(v@, w@, j),
        decreases n - i,
    {
        if occurs_at_exec(&v, &w, i) {
            return true;
        }
        if i == n {
            assert forall|j: int| !occurs_at(v@, w@, j) by {
                if 0 <= j <= n {
                } 
            }
            return false;
        }
        i = i + 1;
    }
}

/// Every occurrence of `from` replaced by `to`, as `str::replace`.
pub open spec fn replace_char(s: Seq<char>, from: char, to: Seq<char>) -> Seq<char>
    decreases s.len(),
{
    if s.len() == 0 {
        Seq::empty()
    } else {
        replace_char(s.drop_last(), from, to) + (if s.last() == from {
            to
        } else {
            seq![s.last()]
        })
    }
}

/// Every occurrence of `from` replaced by `to`.
pub fn replace_char_exec(s: &str, from: char, to: &str) -> (r: String)
    ensures
        r@ == replace_char(s@, from, to@),
{
    let v = to_chars(s);
    let mut r = String::new();
    let mut i: usize = 0;
    while i < v.len()
        invariant
            i <= v@.len(),
            r@ == replace_char(v@.subrange(0, i as int), from, to@),
        decreases v@.len() - i,
    {
        proof {
            assert(v@.subrange(0, i + 1).drop_last() == v@.subrange(0, i as int));
        }
        if v[i] == from {
            r.append(to);
        } else {
            push_char(&mut r, v[i]);
        }
        i = i + 1;
    }
    proof {
        assert(v@.subrange(0, v@.len() as int) == v@);
    }
    r
}


/// Lexicographic order on characters by code point; this is the order of
/// `str` and `String` comparisons (byte order of UTF-8 is code-point order).
pub open spec fn lex_le(a: Seq<char>, b: Seq<char>) -> bool
    decreases a.len(),
{
    if a.len() == 0 {
        true
    } else if b.len() == 0 {
        false
    } else if a[0] != b[0] {
        a[0] < b[0]
    } else {
        lex_le(a.drop_first(), b.drop_first())
    }
}

/// Any two strings are comparable.
pub proof fn lemma_lex_total(a: Seq<char>, b: Seq<char>)
    ensures
        lex_le(a, b) || lex_le(b, a),
    decreases a.len(),
{
    if a.len() > 0 && b.len() > 0 && a[0] == b[0] {
        lemma_lex_total(a.drop_first(), b.drop_first());
    }
}

/// The order is transitive.
pub proof fn lemma_lex_trans(a: Seq<char>, b: Seq<char>, c: Seq<char>)
    requires
        lex_le(a, b),
        lex_le(b, c),
    ensures
        lex_le(a, c),
    decreases a.len(),
{
    if a.len() > 0 && b.len() > 0 && c.len() > 0 && a[0] == b[0] && b[0] == c[0] {
        lemma_lex_trans(a.drop_first(), b.drop_first(), c.drop_first());
    }
}

/// Comparison of two strings in the order of `lex_le`.
pub fn lex_le_exec(a: &str, b: &str) -> (r: bool)
    ensures
        r == lex_le(a@, b@),
{
    let v = to_chars(a);
    let w = to_chars(b);
    let mut i: usize = 0;
    proof {
        assert(v@.subrange(0, v@.len() as int) == v@);
        assert(w@.subrange(0, w@.len() as int) == w@);
    }
    while i < v.len() && i < w.len() && v[i] == w[i]
        invariant
            i <= v@.len(),
            i <= w@.len(),
            forall|j: int| 0 <= j < i ==> v@[j] == w@[j],
            lex_le(v@, w@) == lex_le(v@.subrange(i as int, v@.len() as int), w@.subrange(i as int, w@.len() as int)),
        decreases v@.len() - i,
    {
        proof {
            let x = v@.subrange(i as int, v@.len() as int);
            let y = w@.subrange(i as int, w@.len() as int);
            assert(x.drop_first() == v@.subrange(i + 1, v@.len() as int));
            assert(y.drop_first() == w@.subrange(i + 1, w@.len() as int));
        }
        i = i + 1;
    }
    proof {
        assert(v@.subrange(0, v@.len() as int) == v@);
        assert(w@.subrange(0, w@.len() as int) == w@);
    }
    if i == v.len() {
        true
    } else if i == w.len() {
        false
    } else {
        v[i] < w[i]
    }
}

/// A value with a name by which lists of such values are ordered.
pub trait Named {
    /// The name, as characters.
    spec fn name_view(&self) -> Seq<char>;

    /// The name.
    fn name_str(&self) -> (r: &str)
        ensures
            r@ == self.name_view(),
    ;
}

impl Named for String {
    open spec fn name_view(&self) -> Seq<char> {
        self@
    }

    fn name_str(&self) -> (r: &str) {
        self.as_str()
    }
}

/// `s` is ordered by name.
pub open spec fn sorted_by_name<T: Named>(s: Seq<T>) -> bool {
    forall|i: int, j: int| 0 <= i < j < s.len() ==> lex_le(s[i].name_view(), s[j].name_view())
}

/// The position at which `x` is inserted into `s`: before the first item
/// whose name orders after `x`'s, at the end when there is none.
pub open spec fn insert_pos<T: Named>(s: Seq<T>, x: T) -> int
    decreases s.len(),
{
    if s.len() == 0 {
        0
    } else if !lex_le(s[0].name_view(), x.name_view()) {
        0
    } else {
        1 + insert_pos(s.drop_first(), x)
    }
}

/// `s` sorted by name by inserting its items one after the other, each
/// after the items with the same name: a stable sort.
pub open spec fn sorted_by_insertion<T: Named>(s: Seq<T>) -> Seq<T>
    decreases s.len(),
{
    if s.len() == 0 {
        s
    } else {
        let r = sorted_by_insertion(s.drop_last());
        r.insert(insert_pos(r, s.last()), s.last())
    }
}

proof fn lemma_insert_pos<T: Named>(s: Seq<T>, x: T, k: int)
    requires
        0 <= k <= s.len(),
        forall|j: int| 0 <= j < k ==> lex_le(#[trigger] s[j].name_view(), x.name_view()),
        k < s.len() ==> !lex_le(s[k].name_view(), x.name_view()),
    ensures
        insert_pos(s, x) == k,
    decreases k,
{
    if k > 0 {
        assert forall|j: int| 0 <= j < k - 1 implies lex_le(#[trigger] s.drop_first()[j].name_view(), x.name_view()) by {
            assert(s.drop_first()[j] == s[j + 1]);
        }
        lemma_insert_pos(s.drop_first(), x, k - 1);
    }
}

/// Sorts by name, stably (items with the same name keep their order): the
/// result holds the same items, ordered by name.
pub fn sort_by_name<T: Named>(v: Vec<T>) -> (r: Vec<T>)
    ensures
        r@ == sorted_by_insertion(v@),
        r@.to_multiset() == v@.to_multiset(),
        sorted_by_name(r@),
{
    broadcast use vstd::seq_lib::group_to_multiset_ensures;
    broadcast use vstd::multiset::group_multiset_axioms;

    let ghost orig = v@;
    let mut rest = v;
    let mut r: Vec<T> = Vec::new();
    proof {
        assert(orig.subrange(0, 0) =~= Seq::<T>::empty());
        assert(orig.subrange(0, orig.len() as int) == orig);
    }
    while rest.len() > 0
        invariant
            r@.to_multiset().add(rest@.to_multiset()) == orig.to_multiset(),
            sorted_by_name(r@),
            rest@.len() <= orig.len(),
            rest@ == orig.subrange(orig.len() - rest@.len(), orig.len() as int),
            r@ == sorted_by_insertion(orig.subrange(0, orig.len() - rest@.len())),
        decreases rest@.len(),
    {
        let ghost rest0 = rest@;
        let ghost done = orig.len() - rest0.len();
        let x = rest.remove(0);
        proof {
            vstd::seq_lib::to_multiset_remove(rest0, 0);
        }
        let mut pos: usize = 0;
        while pos < r.len() && lex_le_exec(r[pos].name_str(), x.name_str())
            invariant
                pos <= r@.len(),
                forall|k: int| 0 <= k < pos ==> lex_le(#[trigger] r@[k].name_view(), x.name_view()),
            decreases r@.len() - pos,
        {
            pos = pos + 1;
        }
        let ghost r0 = r@;
        r.insert(pos, x);
        proof {
            assert(r@ == r0.insert(pos as int, x));
            assert(x == orig[done]);
            lemma_insert_pos(r0, x, pos as int);
            assert(orig.subrange(0, done + 1).drop_last() =~= orig.subrange(0, done));
            assert(orig.subrange(0, done + 1).last() == x);
            assert(rest@ =~= orig.subrange(orig.len() - rest@.len(), orig.len() as int));
            vstd::seq_lib::to_multiset_insert(r0, pos as int, x);
            vstd::seq_lib::to_multiset_contains(rest0, x);
            assert(rest0.contains(x)) by {
                assert(rest0[0] == x);
            }
            assert(r@.to_multiset().add(rest@.to_multiset()) =~= orig.to_multiset());
            if pos < r0.len() {
                lemma_lex_total(r0[pos as int].name_view(), x.name_view());
            }
            assert forall|i: int, j: int| 0 <= i < j < r@.len() implies lex_le(
                r@[i].name_view(),
                r@[j].name_view(),
            ) by {
                if j == pos {
                    assert(r@[i] == r0[i]);
                } else if i == pos {
                    assert(r@[j] == r0[j - 1]);
                    if j - 1 > pos {
                        lemma_lex_trans(x.name_view(), r0[pos as int].name_view(), r0[j - 1].name_view());
                    }
                } else if j < pos {
                    assert(r@[i] == r0[i] && r@[j] == r0[j]);
                } else if i < pos {
                    assert(r@[i] == r0[i] && r@[j] == r0[j - 1]);
                    assert(lex_le(r0[i].name_view(), x.name_view()));
                    lemma_lex_total(r0[pos as int].name_view(), x.name_view());
                    if j - 1 > pos {
                        lemma_lex_trans(x.name_view(), r0[pos as int].name_view(), r0[j - 1].name_view());
                    }
                    lemma_lex_trans(r0[i].name_view(), x.name_view(), r0[j - 1].name_view());
                } else {
                    assert(r@[i] == r0[i - 1] && r@[j] == r0[j - 1]);
                }
            }
        }
    }
    proof {
        assert(rest@.to_multiset() =~= Multiset::empty());
    }
    r
}


/// The result of `trim` neither starts nor ends with whitespace.
pub proof fn lemma_trim_ends(s: Seq<char>)
    ensures
        trim(s).len() > 0 ==> !is_ws(trim(s)[0]) && !is_ws(trim(s).last()),
{
    lemma_trim_start_ends(s);
    lemma_trim_end_ends(trim_start(s));
}

proof fn lemma_trim_start_ends(s: Seq<char>)
    ensures
        trim_start(s).len() > 0 ==> !is_ws(trim_start(s)[0]),
    decreases s.len(),
{
    if s.len() > 0 && is_ws(s[0]) {
        lemma_trim_start_ends(s.drop_first());
    }
}

proof fn lemma_trim_end_ends(s: Seq<char>)
    ensures
        trim_end(s).len() > 0 ==> !is_ws(trim_end(s).last()) && trim_end(s)[0] == s[0],
    decreases s.len(),
{
    if s.len() > 0 && is_ws(s.last()) {
        lemma_trim_end_ends(s.drop_last());
    }
}

/// `index_of` is the first position holding `c`.
pub proof fn lemma_index_of_is(s: Seq<char>, c: char, i: int)
    requires
        0 <= i < s.len(),
        s[i] == c,
        forall|j: int| 0 <= j < i ==> s[j] != c,
    ensures
        index_of(s, c) == Some(i),
{
    lemma_index_of_suffix(s, 0, c, Some(i));
    assert(s.subrange(0, s.len() as int) == s);
}


/// A text without the separator splits into itself.
pub proof fn lemma_split_no_sep(s: Seq<char>, c: char)
    requires
        !contains(s, seq![c]),
    ensures
        split(s, c) == seq![s],
{
    lemma_index_of(s, c);
    match index_of(s, c) {
        Some(i) => {
            assert(occurs_at(s, seq![c], i)) by {
                assert(s.subrange(i, i + 1) =~= seq![c]);
            }
        },
        None => {},
    }
}

/// Splitting `a`, the separator and a separator-free `b` gives the pieces
/// of `a` followed by `b`.
pub proof fn lemma_split_append(a: Seq<char>, b: Seq<char>, c: char)
    requires
        !contains(b, seq![c]),
    ensures
        split(a + seq![c] + b, c) == split(a, c).push(b),
    decreases a.len(),
{
    let s = a + seq![c] + b;
    lemma_index_of(a, c);
    lemma_index_of(s, c);
    match index_of(a, c) {
        Some(i) => {
            lemma_index_of_is(s, c, i);
            let rest = a.subrange(i + 1, a.len() as int);
            lemma_split_append(rest, b, c);
            assert(s.subrange(i + 1, s.len() as int) == rest + seq![c] + b);
            assert(s.subrange(0, i) == a.subrange(0, i));
        },
        None => {
            lemma_index_of_is(s, c, a.len() as int);
            assert(s.subrange(0, a.len() as int) == a);
            assert(s.subrange(a.len() as int + 1, s.len() as int) == b);
            lemma_split_no_sep(b, c);
        },
    }
}

/// Joining the pieces of a split with the separator gives the text back.
pub proof fn lemma_join_split(s: Seq<char>, c: char)
    ensures
        join(split(s, c), seq![c]) == s,
    decreases s.len(),
{
    lemma_index_of(s, c);
    match index_of(s, c) {
        Some(i) => {
            let rest = s.subrange(i + 1, s.len() as int);
            lemma_join_split(rest, c);
            lemma_join_prepend(s.subrange(0, i), split(rest, c), seq![c]);
            assert(s == s.subrange(0, i) + seq![c] + rest);
        },
        None => {},
    }
}

proof fn lemma_join_prepend(x: Seq<char>, parts: Seq<Seq<char>>, sep: Seq<char>)
    requires
        parts.len() > 0,
    ensures
        join(seq![x] + parts, sep) == x + sep + join(parts, sep),
    decreases parts.len(),
{
    let all = seq![x] + parts;
    if parts.len() == 1 {
        assert(all.drop_last() == seq![x]);
        assert(join(all, sep) == join(seq![x], sep) + sep + parts[0]);
    } else {
        lemma_join_prepend(x, parts.drop_last(), sep);
        assert(all.drop_last() == seq![x] + parts.drop_last());
        assert(all.last() == parts.last());
    }
}

/// Splitting always gives at least one piece.
pub proof fn lemma_split_nonempty(s: Seq<char>, c: char)
    ensures
        split(s, c).len() >= 1,
{
}

/// The position of the first occurrence of `p` in `s`.
pub open spec fn find_str(s: Seq<char>, p: Seq<char>) -> Option<int>
    decreases s.len(),
{
    if occurs_at(s, p, 0) {
        Some(0)
    } else if s.len() == 0 {
        None
    } else {
        match find_str(s.drop_first(), p) {
            Some(i) => Some(i + 1),
            None => None,
        }
    }
}

/// The first occurrence of `p` at or after `start`.
pub fn find_str_from(s: &Vec<char>, start: usize, p: &Vec<char>) -> (r: Option<usize>)
    requires
        start <= s@.len(),
    ensures
        find_str(s@.subrange(start as int, s@.len() as int), p@) == match r {
            Some(i) => Some(i - start),
            None => None::<int>,
        },
        r matches Some(i) ==> start <= i && i + p@.len() <= s@.len(),
    decreases s@.len() - start,
{
    let ghost t = s@.subrange(start as int, s@.len() as int);
    let mut ok = p.len() <= s.len() - start;
    let mut k: usize = 0;
    while ok && k < p.len()
        invariant
            start <= s@.len(),
            s@.len() <= usize::MAX,
            ok ==> p@.len() <= s@.len() - start,
            k <= p@.len(),
            ok ==> forall|j: int| 0 <= j < k ==> s@[start + j] == p@[j],
            !ok ==> !occurs_at(t, p@, 0),
            t == s@.subrange(start as int, s@.len() as int),
        decreases p@.len() - k,
    {
        if s[start + k] != p[k] {
            ok = false;
            assert(t.subrange(0, p@.len() as int)[k as int] != p@[k as int]);
        }
        k = k + 1;
    }
    if ok {
        assert(t.subrange(0, p@.len() as int) =~= p@);
        return Some(start);
    }
    if start == s.len() {
        return None;
    }
    let r = find_str_from(s, start + 1, p);
    proof {
        assert(t.drop_first() == s@.subrange(start + 1, s@.len() as int));
    }
    r
}

/// The decimal digits of `n`.
pub open spec fn decimal(n: nat) -> Seq<char>
    decreases n,
{
    if n < 10 {
        seq![((n + 48) as u8) as char]
    } else {
        decimal(n / 10).push((((n % 10) + 48) as u8) as char)
    }
}

/// `n` in decimal, as `format!("{n}")` writes it.
pub fn decimal_exec(n: usize) -> (r: String)
    ensures
        r@ == decimal(n as nat),
    decreases n,
{
    let d = ((n % 10) as u8 + 48) as char;
    if n < 10 {
        let mut r = String::new();
        push_char(&mut r, d);
        proof {
            assert(r@ =~= decimal(n as nat));
        }
        r
    } else {
        let mut r = decimal_exec(n / 10);
        push_char(&mut r, d);
        proof {
            assert(r@ =~= decimal(n as nat));
        }
        r
    }
}

/// An ASCII decimal digit.
pub open spec fn is_digit(c: char) -> bool {
    '0' <= c && c <= '9'
}

/// The number that a run of ASCII digits writes in decimal.
pub open spec fn digits_value(s: Seq<char>) -> nat
    decreases s.len(),
{
    if s.len() == 0 {
        0
    } else {
        digits_value(s.drop_last()) * 10 + ((s.last() as int - 48) as nat)
    }
}

/// The number that `s` writes in decimal, when `s` is a non-empty run of
/// ASCII digits whose value is at most `max`.
pub open spec fn number_upto(s: Seq<char>, max: nat) -> Option<nat> {
    if s.len() > 0 && (forall|i: int| 0 <= i < s.len() ==> is_digit(#[trigger] s[i])) && digits_value(s) <= max {
        Some(digits_value(s))
    } else {
        None
    }
}

/// A prefix of a run of digits writes no larger a number than the run.
proof fn lemma_digits_prefix(s: Seq<char>, k: int)
    requires
        0 <= k <= s.len(),
        forall|i: int| 0 <= i < s.len() ==> is_digit(#[trigger] s[i]),
    ensures
        digits_value(s.take(k)) <= digits_value(s),
    decreases s.len(),
{
    if k < s.len() {
        let d = s.drop_last();
        assert(d.take(k) == s.take(k));
        assert forall|i: int| 0 <= i < d.len() implies is_digit(#[trigger] d[i]) by {
            assert(d[i] == s[i]);
        }
        lemma_digits_prefix(d, k);
        assert(is_digit(s[s.len() - 1]));
    } else {
        assert(s.take(k) == s);
    }
}

/// Reads a decimal number of at most `max`.
pub fn parse_number(s: &str, max: u32) -> (r: Option<u32>)
    ensures
        match r {
            Some(n) => number_upto(s@, max as nat) == Some(n as nat),
            None => number_upto(s@, max as nat) is None,
        },
{
    let v = to_chars(s);
    if v.len() == 0 {
        return None;
    }
    let mut n: u32 = 0;
    let mut i: usize = 0;
    while i < v.len()
        invariant
            v@ == s@,
            i <= v@.len(),
            n <= max,
            n as nat == digits_value(v@.take(i as int)),
            forall|j: int| 0 <= j < i ==> is_digit(#[trigger] v@[j]),
        decreases v@.len() - i,
    {
        let c = v[i];
        if !('0' <= c && c <= '9') {
            return None;
        }
        proof {
            assert(v@.take(i + 1).drop_last() == v@.take(i as int));
            assert(v@.take(i + 1).last() == c);
        }
        let d: u64 = (c as u64) - 48;
        let m: u64 = (n as u64) * 10 + d;
        if m > max as u64 {
            proof {
                if forall|k: int| 0 <= k < s@.len() ==> is_digit(#[trigger] s@[k]) {
                    lemma_digits_prefix(v@, i + 1);
                }
            }
            return None;
        }
        n = m as u32;
        i = i + 1;
    }
    proof {
        assert(v@.take(v@.len() as int) == v@);
    }
    Some(n)
}

/// Mapping preserves having the same elements the same number of times.
pub proof fn lemma_map_multiset<A, B>(a: Seq<A>, b: Seq<A>, f: spec_fn(A) -> B)
    requires
        a.to_multiset() == b.to_multiset(),
    ensures
        a.map_values(f).to_multiset() == b.map_values(f).to_multiset(),
    decreases a.len(),
{
    broadcast use vstd::seq_lib::group_to_multiset_ensures;
    broadcast use vstd::multiset::group_multiset_axioms;

    if a.len() == 0 {
        vstd::seq_lib::to_multiset_len(a);
        vstd::seq_lib::to_multiset_len(b);
        assert(b.len() == 0);
        assert(a.map_values(f) =~= Seq::<B>::empty());
        assert(b.map_values(f) =~= Seq::<B>::empty());
    } else {
        let x = a.last();
        let a1 = a.drop_last();
        assert(a == a1.push(x));
        vstd::seq_lib::to_multiset_build(a1, x);
        assert(a.to_multiset().count(x) > 0);
        vstd::seq_lib::to_multiset_contains(b, x);
        let j = choose|j: int| 0 <= j < b.len() && b[j] == x;
        let b1 = b.remove(j);
        vstd::seq_lib::to_multiset_remove(b, j);
        assert(b1.to_multiset() =~= a1.to_multiset());
        lemma_map_multiset(a1, b1, f);
        let am = a.map_values(f);
        let bm = b.map_values(f);
        assert(am =~= a1.map_values(f).push(f(x)));
        vstd::seq_lib::to_multiset_build(a1.map_values(f), f(x));
        assert(bm.remove(j) =~= b1.map_values(f));
        vstd::seq_lib::to_multiset_remove(bm, j);
        assert(bm[j] == f(x));
        vstd::seq_lib::to_multiset_contains(bm, f(x));
        assert(bm.contains(f(x)));
        assert(bm.to_multiset() =~= bm.to_multiset().remove(f(x)).insert(f(x)));
    }
}

} // verus!
