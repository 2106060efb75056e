//! Precomputation of NSEC3 hashes for candidate subdomain names, and the
//! reverse lookup tables and cache artifacts built from them.

pub mod primitives;
pub mod nsec3;
pub mod cache_key;
pub mod table;
pub mod salt;
pub mod wordlist;
pub mod engine;
pub mod artifact;
