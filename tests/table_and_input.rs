use nsec3_precompute::engine::{fqdn_of, hash_candidate, hash_candidates};
use nsec3_precompute::salt::parse_salt;
use nsec3_precompute::table::ReverseLookupTable;
use nsec3_precompute::wordlist::clean_wordlist;

#[test]
fn collision_last_write_wins() {
    let pairs = vec![
        ("k1".to_string(), "first.example.com".to_string()),
        ("k2".to_string(), "other.example.com".to_string()),
        ("k1".to_string(), "second.example.com".to_string()),
    ];
    let table = ReverseLookupTable::from_pairs(&pairs);
    assert_eq!(table.len(), 2);
    assert_eq!(table.get("k1"), Some("second.example.com".to_string()));
    assert_eq!(table.get("k2"), Some("other.example.com".to_string()));
    assert_eq!(table.get("k3"), None);
}

#[test]
fn insert_and_list_pairs() {
    let mut table = ReverseLookupTable::new();
    assert_eq!(table.len(), 0);
    table.insert("a".to_string(), "x".to_string());
    table.insert("b".to_string(), "y".to_string());
    table.insert("a".to_string(), "z".to_string());
    let mut pairs = table.to_pairs();
    pairs.sort();
    assert_eq!(pairs, vec![("a".to_string(), "z".to_string()), ("b".to_string(), "y".to_string())]);
}

#[test]
fn fqdn_joins_with_dot() {
    assert_eq!(fqdn_of("www", "example.com"), "www.example.com");
    let (hash, name) = hash_candidate("www", "example.com", &[], 0);
    assert_eq!(name, "www.example.com");
    assert_eq!(hash, "a2cqgnmn3xjdz5wpad25nlm2ixgqvdqd");
}

#[test]
fn engine_table_for_empty_wordlist() {
    let table = hash_candidates(&Vec::new(), "example.com", &[], 0);
    assert_eq!(table.len(), 0);
}

#[test]
fn salt_parsing() {
    let p = parse_salt("AABBCCDD");
    assert_eq!(p.bytes, vec![0xaa, 0xbb, 0xcc, 0xdd]);
    assert!(!p.literal_fallback);
    let p = parse_salt("deadBEEF");
    assert_eq!(p.bytes, vec![0xde, 0xad, 0xbe, 0xef]);
    let p = parse_salt("");
    assert!(p.bytes.is_empty());
    assert!(!p.literal_fallback);
    let p = parse_salt("xyz");
    assert_eq!(p.bytes, b"xyz".to_vec());
    assert!(p.literal_fallback);
    let p = parse_salt("ABC");
    assert_eq!(p.bytes, b"ABC".to_vec());
    assert!(p.literal_fallback);
}

#[test]
fn wordlist_cleaning() {
    let lines: Vec<String> = vec!["  www ", "", "\tmail", "   ", "www", "dev\r"].into_iter().map(String::from).collect();
    let words = clean_wordlist(&lines);
    assert_eq!(words, vec!["www", "mail", "www", "dev"]);
}

#[test]
fn keys_sharing_a_bucket_stay_apart() {
    let mut table = ReverseLookupTable::new();
    table.insert("x0000000abcdefgh".to_string(), "one".to_string());
    table.insert("y0000000abcdefgh".to_string(), "two".to_string());
    table.insert("x0000000abcdefgh".to_string(), "three".to_string());
    assert_eq!(table.len(), 2);
    assert_eq!(table.get("x0000000abcdefgh"), Some("three".to_string()));
    assert_eq!(table.get("y0000000abcdefgh"), Some("two".to_string()));
    assert_eq!(table.get("z0000000abcdefgh"), None);
}

#[test]
fn many_candidates_one_entry_each() {
    let words: Vec<String> = (0..3000).map(|i| format!("host{}", i)).collect();
    let table = hash_candidates(&words, "example.org", &[0x01], 1);
    assert_eq!(table.len(), 3000);
    assert_eq!(table.get(&hash_candidate("host42", "example.org", &[0x01], 1).0), Some("host42.example.org".to_string()));
}
