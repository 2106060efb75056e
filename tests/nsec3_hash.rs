use nsec3_precompute::nsec3::{calculate_nsec3_hash, encode_digest, next_round, nsec3_raw_digest};

#[test]
fn test_nsec3_hash_no_salt_no_iterations() {
    let hash = calculate_nsec3_hash("example.com", &[], 0);
    assert_eq!(hash.len(), 32);
}

#[test]
fn test_nsec3_hash_with_salt() {
    let salt = hex::decode("AABBCCDD").unwrap();
    let hash = calculate_nsec3_hash("test.example.com", &salt, 0);
    assert_eq!(hash.len(), 32);
}

#[test]
fn test_nsec3_hash_with_iterations() {
    let hash = calculate_nsec3_hash("example.com", &[], 10);
    assert_eq!(hash.len(), 32);
}

#[test]
fn hash_exact_values() {
    assert_eq!(calculate_nsec3_hash("example.com", &[], 0), "bsvpesvrudbtiqganl7jtx4ymns3a6a7");
    assert_eq!(
        calculate_nsec3_hash("test.example.com", &[0xaa, 0xbb, 0xcc, 0xdd], 0),
        "ua3jbxvg2qb5horhqftgc7uncfq4ucmd"
    );
    assert_eq!(calculate_nsec3_hash("example.com", &[], 10), "pu4qdfzb4xkxmlxqwa6pf754solhsyhk");
    assert_eq!(
        calculate_nsec3_hash("example.com", &[0xde, 0xad, 0xbe, 0xef], 5),
        "ge7xjek2nbft64gr4pcnszbivmdqz4bg"
    );
}

#[test]
fn hash_is_lower_case_base32() {
    for (name, salt, n) in [("example.com", vec![], 0u32), ("A.B.C", vec![1u8, 2, 3], 7), ("", vec![0u8], 2)] {
        let hash = calculate_nsec3_hash(name, &salt, n);
        assert_eq!(hash.len(), 32);
        assert!(hash.chars().all(|c| c.is_ascii_lowercase() || ('2'..='7').contains(&c)));
    }
}

#[test]
fn hash_is_deterministic() {
    let a = calculate_nsec3_hash("mail.example.com", &[9, 8, 7], 4);
    let b = calculate_nsec3_hash("mail.example.com", &[9, 8, 7], 4);
    assert_eq!(a, b);
}

#[test]
fn hash_lower_cases_the_name() {
    assert_eq!(
        calculate_nsec3_hash("WWW.Example.COM", &[], 0),
        calculate_nsec3_hash("www.example.com", &[], 0)
    );
    assert_eq!(calculate_nsec3_hash("WWW.Example.COM", &[], 0), "a2cqgnmn3xjdz5wpad25nlm2ixgqvdqd");
}

#[test]
fn one_more_iteration_rehashes_raw_digest() {
    let salt = [0xca, 0xfe];
    let raw = nsec3_raw_digest("www.example.com", &salt, 3);
    assert_eq!(raw.len(), 20);
    let next = next_round(&raw, &salt);
    assert_eq!(encode_digest(&next), calculate_nsec3_hash("www.example.com", &salt, 4));
    assert_eq!(encode_digest(&raw), calculate_nsec3_hash("www.example.com", &salt, 3));
    assert_ne!(calculate_nsec3_hash("www.example.com", &salt, 4), calculate_nsec3_hash("www.example.com", &salt, 3));
}

#[test]
fn empty_salt_adds_nothing() {
    let zero = nsec3_raw_digest("example.com", &[], 0);
    let once = next_round(&zero, &[]);
    assert_eq!(once, nsec3_raw_digest("example.com", &[], 1));
    assert_eq!(encode_digest(&zero), "bsvpesvrudbtiqganl7jtx4ymns3a6a7");
}

#[test]
fn encode_digest_short_input() {
    assert_eq!(encode_digest(&[0x12, 0x34]), "ci2a");
    assert_eq!(encode_digest(&[]), "");
}
