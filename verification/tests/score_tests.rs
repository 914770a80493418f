use termray::score::hash;

#[test]
fn hash_of_empty_input_is_the_sha3_vector() {
    // the SHA3-256 digest of the empty string, hex-encoded
    let h = hash(&vec![], &vec![]);
    assert_eq!(h, "a7ffc6f8bf1ed76651c14756a061d662f580ff4de43b49fa82d80a4b80f8434a");
}

#[test]
fn hash_of_known_input() {
    // the SHA3-256 digest of "abc"
    let h = hash(&vec![b'a', b'b', b'c'], &vec![]);
    assert_eq!(h, "3a985da74fe225b2045c172d6bd390bd855f086e3e9d525b46bfe24511431532");
}

#[test]
fn salt_is_appended_to_the_record() {
    // splitting "abc" into record and salt hashes the same bytes
    let split = hash(&vec![b'a'], &vec![b'b', b'c']);
    let whole = hash(&vec![b'a', b'b', b'c'], &vec![]);
    assert_eq!(split, whole);
    // a different salt signs differently
    let other = hash(&vec![b'a'], &vec![b'b', b'd']);
    assert_ne!(other, whole);
}

#[test]
fn hash_is_64_hex_digits() {
    let h = hash(&vec![1, 2, 3], &vec![4, 5]);
    assert_eq!(h.len(), 64);
    assert!(h.chars().all(|c| c.is_ascii_hexdigit() && !c.is_ascii_uppercase()));
}
