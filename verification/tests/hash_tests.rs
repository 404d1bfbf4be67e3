use last::error::LastError;
use last::hash::{check_digest, compute_hash, encode, verify_file, HashAlgorithm, HashSpec};

#[test]
fn algorithm_from_prefix_ignores_case() {
    assert_eq!(HashAlgorithm::from_prefix("SHA256"), Some(HashAlgorithm::Sha256));
    assert_eq!(HashAlgorithm::from_prefix("sha512"), Some(HashAlgorithm::Sha512));
    assert_eq!(HashAlgorithm::from_prefix("Sha1"), Some(HashAlgorithm::Sha1));
    assert_eq!(HashAlgorithm::from_prefix("md5"), Some(HashAlgorithm::Md5));
    assert_eq!(HashAlgorithm::from_prefix("crc32"), None);
}

#[test]
fn bare_hex_digest_is_sha256_lowercased() {
    let s = HashSpec::parse("  ABCDEF0123  ").unwrap();
    assert_eq!(s.algorithm, HashAlgorithm::Sha256);
    assert_eq!(s.digest, "abcdef0123");
}

#[test]
fn prefixed_digest_names_its_algorithm() {
    let s = HashSpec::parse("SHA512:ABCD").unwrap();
    assert_eq!(s.algorithm, HashAlgorithm::Sha512);
    assert_eq!(s.digest, "abcd");
    assert_eq!(s.to_text(), "sha512:abcd");
}

#[test]
fn unknown_algorithm_is_refused() {
    match HashSpec::parse("crc32:abcd") {
        Err(LastError::UnsupportedHashAlgorithm(a)) => assert_eq!(a, "crc32"),
        _ => panic!("expected an unsupported algorithm"),
    }
}

#[test]
fn non_hex_bare_digest_is_refused() {
    match HashSpec::parse("not-a-hash") {
        Err(LastError::InvalidHashSpec(s)) => assert_eq!(s, "not-a-hash"),
        _ => panic!("expected an invalid specification"),
    }
}

#[test]
fn spec_text_round_trips() {
    let s = HashSpec::parse("md5:00ff").unwrap();
    let again = HashSpec::parse(&s.to_text()).unwrap();
    assert_eq!(again.algorithm, s.algorithm);
    assert_eq!(again.digest, s.digest);
}

#[test]
fn encode_is_lowercase_hex() {
    assert_eq!(encode(&[0x00, 0x0f, 0xa5, 0xff]), "000fa5ff");
    assert_eq!(encode(&[]), "");
}

#[test]
fn sha256_of_abc() {
    assert_eq!(
        compute_hash(b"abc", HashAlgorithm::Sha256),
        "ba7816bf8f01cfea414140de5dae2223b00361a396177a9cb410ff61f20015ad"
    );
}

#[test]
fn sha512_of_abc() {
    assert_eq!(
        compute_hash(b"abc", HashAlgorithm::Sha512),
        "ddaf35a193617abacc417349ae20413112e6fa4e89a97ea20a9eeee64b55d39a2192992a274fc1a836ba3c23a3feebbd454d4423643ce80e2a9ac94fa54ca49f"
    );
}

#[test]
fn sha1_of_abc() {
    assert_eq!(compute_hash(b"abc", HashAlgorithm::Sha1), "a9993e364706816aba3e25717850c26c9cd0d89d");
}

#[test]
fn md5_of_abc() {
    assert_eq!(compute_hash(b"abc", HashAlgorithm::Md5), "900150983cd24fb0d6963f7d28e17f72");
}

#[test]
fn verify_accepts_matching_content_in_any_case() {
    assert!(verify_file(b"abc", "SHA256:BA7816BF8F01CFEA414140DE5DAE2223B00361A396177A9CB410FF61F20015AD").is_ok());
    assert!(verify_file(b"abc", "900150983cd24fb0d6963f7d28e17f72").is_err());
    assert!(verify_file(b"abc", "md5:900150983cd24fb0d6963f7d28e17f72").is_ok());
}

#[test]
fn verify_reports_mismatch() {
    match verify_file(b"abc", "sha1:0000") {
        Err(LastError::HashMismatch(algo, expected, actual)) => {
            assert_eq!(algo, "sha1");
            assert_eq!(expected, "0000");
            assert_eq!(actual, "a9993e364706816aba3e25717850c26c9cd0d89d");
        }
        _ => panic!("expected a mismatch"),
    }
}

#[test]
fn check_digest_ignores_case() {
    let spec = HashSpec::parse("md5:ABCD").unwrap();
    assert!(check_digest(&spec, "AbCd").is_ok());
    assert!(check_digest(&spec, "abce").is_err());
}
