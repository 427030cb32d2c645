//! Short hashes that name cache files.
use vstd::prelude::*;

verus! {

/// Relies on `BuildHasher::hash_one` with std's `DefaultHasher`: a 64-bit hash of the string.
/// The value is fixed within one build of the program but not promised across Rust releases,
/// so nothing is stated of it.
#[verifier::external_body]
fn default_hash(s: &str) -> u64 {
    std::hash::BuildHasher::hash_one(&std::hash::BuildHasherDefault::<std::collections::hash_map::DefaultHasher>::default(), s)
}

/// A 64-bit hash of `s`, used to name the cache file that belongs to a media path.
pub fn md5_hash(s: &str) -> u64 {
    default_hash(s)
}

} // verus!
