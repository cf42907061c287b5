//! Per-mutation value derivation from a seed.
use core::hash::{BuildHasher, Hash, Hasher};
use vstd::prelude::*;

verus! {

/// The values that hashing a path, an offset and a name under a seed can give.
///
/// It is a set because `ahash` documents no fixed output: it picks its
/// algorithm when it is built, by what the target offers. Within one build
/// equal keys make identical hashers, and the set holds one value.
pub uninterp spec fn derivable(
    seed: u64,
    file_path: Seq<char>,
    byte_offset: int,
    mutator_name: Seq<char>,
) -> Set<u64>;

/// Whether hashing gives one value for what it is handed.
pub open spec fn is_decided() -> bool {
    forall|seed: u64, file_path: Seq<char>, offset: int, name: Seq<char>, a: u64, b: u64|
        #![trigger derivable(seed, file_path, offset, name).contains(a), derivable(seed, file_path, offset, name).contains(b)]
        derivable(seed, file_path, offset, name).contains(a) && derivable(
            seed,
            file_path,
            offset,
            name,
        ).contains(b) ==> a == b
}

/// The seed after a seed. The first follows the last.
pub open spec fn next_seed(seed: u64) -> u64 {
    if seed == u64::MAX {
        0
    } else {
        (seed + 1) as u64
    }
}

/// Derive a value from the seed, the path, the offset and the name.
///
/// Hashes the path, offset and name with an `ahash::RandomState` made by
/// `RandomState::with_seeds` from the seed, and finishes the hasher. The
/// contract claims that the value is one that hashing these can give; which
/// one is left unsaid, for it rests on the target that `ahash` is built for.
#[verifier::external_body]
pub fn derive_value(seed: u64, file_path: &str, byte_offset: usize, mutator_name: &str) -> (r: u64)
    ensures
        derivable(seed, file_path@, byte_offset as int, mutator_name@).contains(r),
{
    let mut hasher = ahash::RandomState::with_seeds(seed, seed, seed, seed).build_hasher();
    std::path::Path::new(file_path).hash(&mut hasher);
    byte_offset.hash(&mut hasher);
    mutator_name.hash(&mut hasher);
    hasher.finish()
}

/// The seed after a seed is one more, and after the greatest comes zero.
pub proof fn law_seeds_follow_each_other(seed: u64)
    ensures
        next_seed(seed) == (seed + 1) % 0x1_0000_0000_0000_0000,
{
}

} // verus!
