//! The deterministic hashing used for rollouts and variant selection: a
//! 32-bit MurmurHash3 of `"group:identifier"`, reduced to `[1, modulus]`.
use vstd::prelude::*;
use vstd::string::StringExecFns;

verus! {

/// What murmur3::murmur3_32 returns for a string and a seed: a pure function
/// of the characters (which fix the UTF-8 bytes) and the seed alone.
pub uninterp spec fn murmur3_hash(s: Seq<char>, seed: u32) -> u32;

/// Relies on murmur3::murmur3_32 over an in-memory cursor: the hash depends
/// only on the bytes read and the seed, and reading from an in-memory cursor
/// cannot fail.
#[verifier::external_body]
fn murmur3_str(s: &str, seed: u32) -> (r: u32)
    ensures
        r == murmur3_hash(s@, seed),
{
    let mut cursor = std::io::Cursor::new(s.as_bytes());
    murmur3::murmur3_32(&mut cursor, seed).expect("reading from memory cannot fail")
}

/// The string that is hashed: the group, a colon, and the identifier.
pub open spec fn spec_hash_input(group: Seq<char>, identifier: Seq<char>) -> Seq<char> {
    group + seq![':'] + identifier
}

/// The normalised hash: murmur3 of `"group:identifier"` with the given seed,
/// taken modulo `modulus`, one-based.
pub open spec fn spec_normalised_hash(
    group: Seq<char>,
    identifier: Seq<char>,
    modulus: u32,
    seed: u32,
) -> u32
    recommends
        modulus >= 1,
{
    (murmur3_hash(spec_hash_input(group, identifier), seed) % modulus + 1) as u32
}

/// The seed that variant distribution hashing uses.
pub const VARIANT_NORMALIZATION_SEED: u32 = 86028157;

fn normalised_hash_internal(group: &str, identifier: &str, modulus: u32, seed: u32) -> (r: u32)
    requires
        modulus >= 1,
    ensures
        r == spec_normalised_hash(group@, identifier@, modulus, seed),
        1 <= r <= modulus,
{
    let mut input = String::new();
    input.append(group);
    input.append(":");
    input.append(identifier);
    proof {
        reveal_strlit(":");
        assert(input@ =~= spec_hash_input(group@, identifier@));
    }
    let h = murmur3_str(input.as_str(), seed);
    h % modulus + 1
}

/// The hash used for feature rollouts (seed 0): murmur3 of
/// `"group:identifier"` modulo `modulus`, in `[1, modulus]`.
pub fn normalised_hash(group: &str, identifier: &str, modulus: u32) -> (r: u32)
    requires
        modulus >= 1,
    ensures
        r == spec_normalised_hash(group@, identifier@, modulus, 0),
        1 <= r <= modulus,
{
    normalised_hash_internal(group, identifier, modulus, 0)
}

/// The hash used for variant distribution: like `normalised_hash` but with
/// its own seed, so the two distributions do not correlate.
pub fn normalised_variant_hash(group: &str, identifier: &str, modulus: u32) -> (r: u32)
    requires
        modulus >= 1,
    ensures
        r == spec_normalised_hash(group@, identifier@, modulus, VARIANT_NORMALIZATION_SEED),
        1 <= r <= modulus,
{
    normalised_hash_internal(group, identifier, modulus, VARIANT_NORMALIZATION_SEED)
}

} // verus!
