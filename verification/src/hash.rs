//! Hash specifications (`sha256:<hex>` or a bare hex digest) and the
//! verification of downloaded content against them.

use vstd::prelude::*;

use crate::error::{LastError, LastErrorV};
use crate::text;

verus! {

/// The hash algorithms manifests may name.
#[derive(Debug, Clone, Copy, PartialEq, Eq, Structural)]
pub enum HashAlgorithm {
    Sha256,
    Sha512,
    Sha1,
    Md5,
}

/// The name of an algorithm, as written in manifests and messages.
pub open spec fn algo_name(a: HashAlgorithm) -> Seq<char> {
    match a {
        HashAlgorithm::Sha256 => "sha256"@,
        HashAlgorithm::Sha512 => "sha512"@,
        HashAlgorithm::Sha1 => "sha1"@,
        HashAlgorithm::Md5 => "md5"@,
    }
}

/// The algorithm with the (lower-case) name `n`.
pub open spec fn algo_named(n: Seq<char>) -> Option<HashAlgorithm> {
    if n == "sha256"@ {
        Some(HashAlgorithm::Sha256)
    } else if n == "sha512"@ {
        Some(HashAlgorithm::Sha512)
    } else if n == "sha1"@ {
        Some(HashAlgorithm::Sha1)
    } else if n == "md5"@ {
        Some(HashAlgorithm::Md5)
    } else {
        None
    }
}

impl HashAlgorithm {
    /// The algorithm named by a hash prefix, in any ASCII case.
    pub fn from_prefix(s: &str) -> (r: Option<HashAlgorithm>)
        ensures
            r == algo_named(text::lower(s@)),
    {
        let l = text::lower_exec(s);
        let l = l.as_str();
        if text::str_eq(l, "sha256") {
            Some(HashAlgorithm::Sha256)
        } else if text::str_eq(l, "sha512") {
            Some(HashAlgorithm::Sha512)
        } else if text::str_eq(l, "sha1") {
            Some(HashAlgorithm::Sha1)
        } else if text::str_eq(l, "md5") {
            Some(HashAlgorithm::Md5)
        } else {
            None
        }
    }

    /// The algorithm's name.
    pub fn name(&self) -> (r: &'static str)
        ensures
            r@ == algo_name(*self),
    {
        match self {
            HashAlgorithm::Sha256 => "sha256",
            HashAlgorithm::Sha512 => "sha512",
            HashAlgorithm::Sha1 => "sha1",
            HashAlgorithm::Md5 => "md5",
        }
    }
}

/// A hex digit, as `char::is_ascii_hexdigit` accepts it.
pub open spec fn is_hex_char(c: char) -> bool {
    ('0' <= c && c <= '9') || ('a' <= c && c <= 'f') || ('A' <= c && c <= 'F')
}

/// A parsed hash specification.
pub struct HashSpec {
    pub algorithm: HashAlgorithm,
    pub digest: String,
}

/// The outcome of parsing a hash specification: the algorithm and the
/// lower-cased digest, or why it was refused.
pub open spec fn parse_hash_spec(s: Seq<char>) -> Result<(HashAlgorithm, Seq<char>), LastErrorV> {
    let t = text::trim(s);
    match text::split_once(t, ':') {
        Some((algo, digest)) => match algo_named(text::lower(algo)) {
            Some(a) => Ok((a, text::lower(digest))),
            None => Err(LastErrorV::UnsupportedHashAlgorithm(algo)),
        },
        None => if forall|i: int| 0 <= i < t.len() ==> is_hex_char(#[trigger] t[i]) {
            Ok((HashAlgorithm::Sha256, text::lower(t)))
        } else {
            Err(LastErrorV::InvalidHashSpec(t))
        },
    }
}

/// The text of a hash specification, `<algorithm>:<digest>`.
pub open spec fn hash_spec_text(a: HashAlgorithm, digest: Seq<char>) -> Seq<char> {
    algo_name(a) + seq![':'] + digest
}

impl HashSpec {
    /// Parses `<algo>:<hexdigest>` or a bare hex digest (sha256), ignoring
    /// surrounding whitespace; the digest is lower-cased.
    pub fn parse(spec: &str) -> (r: Result<HashSpec, LastError>)
        ensures
            match r {
                Ok(h) => parse_hash_spec(spec@) == Ok::<(HashAlgorithm, Seq<char>), LastErrorV>((h.algorithm, h.digest@)),
                Err(e) => parse_hash_spec(spec@) == Err::<(HashAlgorithm, Seq<char>), LastErrorV>(e.deep_view()),
            },
    {
        let t = text::trim_exec(spec);
        match text::split_once_exec(t.as_str(), ':') {
            Some((algo, digest)) => match HashAlgorithm::from_prefix(algo.as_str()) {
                Some(a) => Ok(HashSpec { algorithm: a, digest: text::lower_exec(digest.as_str()) }),
                None => Err(LastError::UnsupportedHashAlgorithm(algo)),
            },
            None => {
                let v = text::to_chars(t.as_str());
                let mut i: usize = 0;
                while i < v.len()
                    invariant
                        i <= v@.len(),
                        v@ == t@,
                        t@ == text::trim(spec@),
                        text::split_once(t@, ':') is None,
                        forall|j: int| 0 <= j < i ==> is_hex_char(#[trigger] v@[j]),
                    decreases v@.len() - i,
                {
                    let c = v[i];
                    if !(('0' <= c && c <= '9') || ('a' <= c && c <= 'f') || ('A' <= c && c <= 'F')) {
                        assert(!is_hex_char(t@[i as int]));
                        return Err(LastError::InvalidHashSpec(t));
                    }
                    i = i + 1;
                }
                Ok(HashSpec { algorithm: HashAlgorithm::Sha256, digest: text::lower_exec(t.as_str()) })
            },
        }
    }

    /// The specification as text, `<algorithm>:<digest>`.
    pub fn to_text(&self) -> (r: String)
        ensures
            r@ == hash_spec_text(self.algorithm, self.digest@),
    {
        let mut r = String::from_str(self.algorithm.name());
        r.append(":");
        r.append(self.digest.as_str());
        proof {
            reveal_strlit(":");
        }
        r
    }
}


/// The SHA-256 digest of `data` (32 bytes).
pub uninterp spec fn sha256_digest(data: Seq<u8>) -> Seq<u8>;

/// The SHA-512 digest of `data` (64 bytes).
pub uninterp spec fn sha512_digest(data: Seq<u8>) -> Seq<u8>;

/// The SHA-1 digest of `data` (20 bytes).
pub uninterp spec fn sha1_digest(data: Seq<u8>) -> Seq<u8>;

/// The MD5 digest of `data` (16 bytes).
pub uninterp spec fn md5_digest(data: Seq<u8>) -> Seq<u8>;

/// Calls `sha2::Sha256::digest` (trait `digest::Digest`). Claimed: the
/// result is the digest of `data`, as named by `sha256_digest`, and is
/// 32 bytes long.
#[verifier::external_body]
fn sha256(data: &[u8]) -> (r: Vec<u8>)
    ensures
        r@ == sha256_digest(data@),
        r@.len() == 32,
{
    <sha2::Sha256 as sha2::Digest>::digest(data).to_vec()
}

/// Calls `sha2::Sha512::digest`. Claimed: the result is the digest of
/// `data`, as named by `sha512_digest`, and is 64 bytes long.
#[verifier::external_body]
fn sha512(data: &[u8]) -> (r: Vec<u8>)
    ensures
        r@ == sha512_digest(data@),
        r@.len() == 64,
{
    <sha2::Sha512 as sha2::Digest>::digest(data).to_vec()
}

/// Calls `sha1::Sha1::digest`. Claimed: the result is the digest of
/// `data`, as named by `sha1_digest`, and is 20 bytes long.
#[verifier::external_body]
fn sha1(data: &[u8]) -> (r: Vec<u8>)
    ensures
        r@ == sha1_digest(data@),
        r@.len() == 20,
{
    <sha1::Sha1 as sha1::Digest>::digest(data).to_vec()
}

/// Calls `md5::Md5::digest` (crate `md-5`). Claimed: the result is the
/// digest of `data`, as named by `md5_digest`, and is 16 bytes long.
#[verifier::external_body]
fn md5(data: &[u8]) -> (r: Vec<u8>)
    ensures
        r@ == md5_digest(data@),
        r@.len() == 16,
{
    <md5::Md5 as md5::Digest>::digest(data).to_vec()
}

/// The digest of `data` under `a`.
pub open spec fn digest_of(a: HashAlgorithm, data: Seq<u8>) -> Seq<u8> {
    match a {
        HashAlgorithm::Sha256 => sha256_digest(data),
        HashAlgorithm::Sha512 => sha512_digest(data),
        HashAlgorithm::Sha1 => sha1_digest(data),
        HashAlgorithm::Md5 => md5_digest(data),
    }
}

/// The lower-case hex digit for `n` (below 16).
pub open spec fn hex_digit(n: u8) -> char {
    if n < 10 {
        ((n + 48) as u8) as char
    } else {
        ((n + 87) as u8) as char
    }
}

/// Lower-case hex encoding, two digits per byte.
pub open spec fn hex_of(b: Seq<u8>) -> Seq<char>
    decreases b.len(),
{
    if b.len() == 0 {
        Seq::empty()
    } else {
        hex_of(b.drop_last()) + seq![hex_digit(b.last() / 16), hex_digit(b.last() % 16)]
    }
}

fn hex_digit_exec(n: u8) -> (r: char)
    requires
        n < 16,
    ensures
        r == hex_digit(n),
{
    if n < 10 {
        (n + 48) as char
    } else {
        (n + 87) as char
    }
}

/// Lower-case hex encoding of `bytes`.
pub fn encode(bytes: &[u8]) -> (r: String)
    ensures
        r@ == hex_of(bytes@),
{
    let mut v: Vec<char> = Vec::new();
    let mut i: usize = 0;
    while i < bytes.len()
        invariant
            i <= bytes@.len(),
            v@ == hex_of(bytes@.subrange(0, i as int)),
        decreases bytes@.len() - i,
    {
        proof {
            assert(bytes@.subrange(0, i + 1).drop_last() == bytes@.subrange(0, i as int));
        }
        let b = bytes[i];
        v.push(hex_digit_exec(b / 16));
        v.push(hex_digit_exec(b % 16));
        i = i + 1;
    }
    proof {
        assert(bytes@.subrange(0, bytes@.len() as int) == bytes@);
    }
    text::from_chars(v.as_slice())
}

/// The hex digest of `content` under `algorithm`.
pub fn compute_hash(content: &[u8], algorithm: HashAlgorithm) -> (r: String)
    ensures
        r@ == hex_of(digest_of(algorithm, content@)),
{
    let d = match algorithm {
        HashAlgorithm::Sha256 => sha256(content),
        HashAlgorithm::Sha512 => sha512(content),
        HashAlgorithm::Sha1 => sha1(content),
        HashAlgorithm::Md5 => md5(content),
    };
    encode(d.as_slice())
}

/// Compares a computed hex digest with a specification: accepted when
/// they are equal up to ASCII case, refused naming both otherwise.
pub fn check_digest(spec: &HashSpec, actual: &str) -> (r: Result<(), LastError>)
    ensures
        r is Ok <==> text::eq_ignore_case(actual@, spec.digest@),
        r matches Err(e) ==> e.deep_view() == LastErrorV::HashMismatch(algo_name(spec.algorithm), spec.digest@, actual@),
{
    if text::eq_ignore_case_exec(actual, spec.digest.as_str()) {
        Ok(())
    } else {
        Err(LastError::HashMismatch(String::from_str(spec.algorithm.name()), spec.digest.clone(), String::from_str(actual)))
    }
}

/// Verifies a file's content against `expected` (`<algo>:<hexdigest>` or
/// bare hex): refused when the specification does not parse, or when the
/// content's digest differs from it.
pub fn verify_file(content: &[u8], expected: &str) -> (r: Result<(), LastError>)
    ensures
        match parse_hash_spec(expected@) {
            Ok((a, d)) => (r is Ok <==> text::eq_ignore_case(hex_of(digest_of(a, content@)), d)) && (r matches Err(e)
                ==> e.deep_view() == LastErrorV::HashMismatch(algo_name(a), d, hex_of(digest_of(a, content@)))),
            Err(e) => r == Err::<(), LastError>(r->Err_0) && r->Err_0.deep_view() == e,
        },
{
    let spec = match HashSpec::parse(expected) {
        Ok(s) => s,
        Err(e) => {
            return Err(e);
        },
    };
    let actual = compute_hash(content, spec.algorithm);
    check_digest(&spec, actual.as_str())
}

proof fn lemma_trim_start_noop(s: Seq<char>)
    requires
        s.len() == 0 || !text::is_ws(s[0]),
    ensures
        text::trim_start(s) == s,
{
}

proof fn lemma_trim_end_noop(s: Seq<char>)
    requires
        s.len() == 0 || !text::is_ws(s.last()),
    ensures
        text::trim_end(s) == s,
{
}

proof fn lemma_lower_idempotent(s: Seq<char>)
    ensures
        text::lower(text::lower(s)) == text::lower(s),
{
    assert(text::lower(text::lower(s)) =~= text::lower(s));
}

/// Writing a parsed specification as text and parsing it again gives the
/// same specification back.
pub proof fn lemma_hash_spec_roundtrip(s: Seq<char>)
    requires
        parse_hash_spec(s) is Ok,
    ensures
        ({
            let (a, d) = parse_hash_spec(s)->Ok_0;
            parse_hash_spec(hash_spec_text(a, d)) == Ok::<(HashAlgorithm, Seq<char>), LastErrorV>((a, d))
        }),
{
    let (a, d) = parse_hash_spec(s)->Ok_0;
    let t = hash_spec_text(a, d);
    let n = algo_name(a);
    reveal_strlit("sha256");
    reveal_strlit("sha512");
    reveal_strlit("sha1");
    reveal_strlit("md5");
    // d is the lower-cased tail of a trimmed text, so it does not end in
    // whitespace, and the text starts with a letter.
    let tr = text::trim(s);
    text::lemma_trim_ends(s);
    match text::split_once(tr, ':') {
        Some((algo, digest)) => {
            text::lemma_index_of(tr, ':');
            let i = text::index_of(tr, ':')->Some_0;
            if digest.len() > 0 {
                assert(digest.last() == tr.last());
                assert(d.last() == text::lower_char(digest.last()));
            }
            lemma_lower_idempotent(digest);
        },
        None => {
            if tr.len() > 0 {
                assert(d.last() == text::lower_char(tr.last()));
            }
            lemma_lower_idempotent(tr);
        },
    }
    assert(t[0] == n[0]);
    lemma_trim_start_noop(t);
    assert(t.last() == if d.len() > 0 { d.last() } else { ':' });
    lemma_trim_end_noop(t);
    assert(text::trim(t) == t);
    text::lemma_index_of(t, ':');
    assert(t[n.len() as int] == ':');
    assert(forall|j: int| 0 <= j < n.len() ==> t[j] == n[j] && n[j] != ':');
    text::lemma_index_of_is(t, ':', n.len() as int);
    assert(t.subrange(0, n.len() as int) == n);
    assert(t.subrange(n.len() as int + 1, t.len() as int) == d);
    assert(text::lower(n) =~= n);
    assert(text::lower(d) == d) by {
        match text::split_once(tr, ':') {
            Some((algo, digest)) => {
                lemma_lower_idempotent(digest);
            },
            None => {
                lemma_lower_idempotent(tr);
            },
        }
    }
}

} // verus!
