//! What one precomputation run produces, and the fixed set of configurations
//! that the batch mode runs.
use vstd::prelude::*;
use crate::cache_key::{cache_filename, get_cache_filename};
use crate::engine::{candidate_pairs, hash_candidates};
use crate::salt::{parse_salt, salt_bytes_of};
use crate::table::{table_of, ReverseLookupTable};
use crate::wordlist::strings_view;

verus! {

/// The table of one run with the configuration that produced it, and the
/// name of the file it is stored under.
pub struct CacheArtifact {
    pub domain: String,
    pub salt: String,
    pub iterations: u32,
    pub wordlist_size: usize,
    pub hashes: ReverseLookupTable,
    pub filename: String,
}

/// Hashes every candidate under `domain` with the salt (hex text, or taken
/// literally when it is not hex) and `iterations`, and names the result's file.
pub fn build_artifact(domain: &str, candidates: &Vec<String>, salt: &str, iterations: u32) -> (r:
    CacheArtifact)
    ensures
        r.domain@ == domain@,
        r.salt@ == salt@,
        r.iterations == iterations,
        r.wordlist_size == candidates@.len(),
        r.hashes.wf(),
        r.hashes@ == table_of(
            candidate_pairs(strings_view(candidates@), domain@, salt_bytes_of(salt@), iterations as nat),
        ),
        r.filename@ == cache_filename(salt@, iterations as nat),
{
    let parsed = parse_salt(salt);
    let hashes = hash_candidates(candidates, domain, parsed.bytes.as_slice(), iterations);
    CacheArtifact {
        domain: domain.to_owned(),
        salt: salt.to_owned(),
        iterations,
        wordlist_size: candidates.len(),
        hashes,
        filename: get_cache_filename(salt, iterations),
    }
}

/// A named (salt, iterations) configuration.
pub struct ConfigPreset {
    pub name: String,
    pub salt: String,
    pub iterations: u32,
}

/// Is `p` the preset with these fields?
pub open spec fn is_preset(p: ConfigPreset, name: &str, salt: &str, iterations: u32) -> bool {
    p.name@ == name@ && p.salt@ == salt@ && p.iterations == iterations
}

fn preset(name: &str, salt: &str, iterations: u32) -> (r: ConfigPreset)
    ensures
        is_preset(r, name, salt, iterations),
{
    ConfigPreset { name: name.to_owned(), salt: salt.to_owned(), iterations }
}

/// The configurations that are common in practice, in the order the batch
/// mode runs them.
pub fn common_configs() -> (r: Vec<ConfigPreset>)
    ensures
        r@.len() == 8,
        is_preset(r@[0], "No salt, no iterations", "", 0),
        is_preset(r@[1], "Google Cloud DNS", "DEADBEEF", 5),
        is_preset(r@[2], "AWS Route53", "CAFEBABE", 10),
        is_preset(r@[3], "Cloudflare minimal", "00", 0),
        is_preset(r@[4], "Light security", "AABBCCDD", 3),
        is_preset(r@[5], "Medium security", "12345678", 5),
        is_preset(r@[6], "High security", "FEDCBA98", 10),
        is_preset(r@[7], "Very high security", "FFFFFFFF", 15),
{
    let mut r: Vec<ConfigPreset> = Vec::new();
    r.push(preset("No salt, no iterations", "", 0));
    r.push(preset("Google Cloud DNS", "DEADBEEF", 5));
    r.push(preset("AWS Route53", "CAFEBABE", 10));
    r.push(preset("Cloudflare minimal", "00", 0));
    r.push(preset("Light security", "AABBCCDD", 3));
    r.push(preset("Medium security", "12345678", 5));
    r.push(preset("High security", "FEDCBA98", 10));
    r.push(preset("Very high security", "FFFFFFFF", 15));
    r
}

} // verus!
