use nsec3_precompute::artifact::{build_artifact, common_configs};
use nsec3_precompute::cache_key::get_cache_filename;
use nsec3_precompute::nsec3::calculate_nsec3_hash;

#[test]
fn cache_filename_exact() {
    assert_eq!(get_cache_filename("", 0), "nsec3_a764b4bf13a360c7ac2a35ec4ca96c95.json");
    assert_eq!(get_cache_filename("DEADBEEF", 5), "nsec3_f91234b6a3fd0da7f7dddcd463c4d090.json");
    assert_eq!(get_cache_filename("FFFFFFFF", 15), "nsec3_91929b303c2ee5fa824724ddd408afe7.json");
}

#[test]
fn cache_filename_is_stable() {
    assert_eq!(get_cache_filename("AABBCCDD", 3), get_cache_filename("AABBCCDD", 3));
    assert_eq!(get_cache_filename("AABBCCDD", 3).len(), 43);
}

#[test]
fn presets_have_distinct_filenames() {
    let configs = common_configs();
    assert_eq!(configs.len(), 8);
    let names: Vec<String> = configs.iter().map(|c| get_cache_filename(&c.salt, c.iterations)).collect();
    for i in 0..names.len() {
        for j in (i + 1)..names.len() {
            assert_ne!(names[i], names[j]);
        }
    }
    assert_eq!(configs[2].salt, "CAFEBABE");
    assert_eq!(configs[2].iterations, 10);
    assert_eq!(configs[3].salt, "00");
}

#[test]
fn end_to_end_two_candidates() {
    let words = vec!["www".to_string(), "mail".to_string()];
    let artifact = build_artifact("example.com", &words, "", 0);
    assert_eq!(artifact.wordlist_size, 2);
    assert_eq!(artifact.hashes.len(), 2);
    let www = calculate_nsec3_hash("www.example.com", &[], 0);
    let mail = calculate_nsec3_hash("mail.example.com", &[], 0);
    assert_eq!(artifact.hashes.get(&www), Some("www.example.com".to_string()));
    assert_eq!(artifact.hashes.get(&mail), Some("mail.example.com".to_string()));
    assert_eq!(mail, "bmwav3opnl2ocxhxbnane5bmijqiqbry");
    assert_eq!(artifact.filename, "nsec3_a764b4bf13a360c7ac2a35ec4ca96c95.json");
    assert_eq!(artifact.domain, "example.com");
    assert_eq!(artifact.salt, "");
}

#[test]
fn artifact_decodes_hex_salt() {
    let words = vec!["test".to_string()];
    let artifact = build_artifact("example.com", &words, "AABBCCDD", 0);
    assert_eq!(
        artifact.hashes.get("ua3jbxvg2qb5horhqftgc7uncfq4ucmd"),
        Some("test.example.com".to_string())
    );
    assert_eq!(artifact.iterations, 0);
}

#[test]
fn duplicate_candidates_make_one_entry() {
    let words = vec!["www".to_string(), "www".to_string(), "mail".to_string()];
    let artifact = build_artifact("example.com", &words, "", 0);
    assert_eq!(artifact.wordlist_size, 3);
    assert_eq!(artifact.hashes.len(), 2);
}
