//! The case-insensitive identity of a file name.
use vstd::prelude::*;
use crate::names::{lower, ascii_lowercase};

verus! {

/// The 64-bit xxHash of `data` with the given seed.
pub uninterp spec fn xxh64(seed: u64, data: Seq<u8>) -> u64;

/// Relies on `twox_hash::XxHash64::oneshot`: the 64-bit xxHash of the bytes under
/// the seed, which depends on the two arguments alone.
#[verifier::external_body]
fn xxhash64(seed: u64, data: &Vec<u8>) -> (r: u64)
    ensures
        r == xxh64(seed, data@),
{
    twox_hash::XxHash64::oneshot(seed, data.as_slice())
}

/// The key under which a name is deduplicated: the hash, with seed 0, of its ASCII
/// lowercase form.
pub open spec fn dedup_key(name: Seq<u8>) -> u64 {
    xxh64(0, lower(name))
}

/// Computes the case-insensitive key of a file name.
pub fn calc_lower_hash(name: &Vec<u8>) -> (r: u64)
    ensures
        r == dedup_key(name@),
{
    let folded = ascii_lowercase(name);
    xxhash64(0, &folded)
}

/// Names that differ only in ASCII case share one key.
pub proof fn lemma_key_ignores_case(a: Seq<u8>, b: Seq<u8>)
    requires
        lower(a) == lower(b),
    ensures
        dedup_key(a) == dedup_key(b),
{
}

} // verus!
