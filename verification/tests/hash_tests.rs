//! The published conformance values for the rollout and variant hashes.
use unleash_api_client::hash::normalised_variant_hash;

#[test]
fn normalised_hash() {
    assert!(50 > unleash_api_client::hash::normalised_hash("AB12A", "122", 100));
}

#[test]
fn test_normalized_hash() {
    assert_eq!(73, unleash_api_client::hash::normalised_hash("gr1", "123", 100));
    assert_eq!(25, unleash_api_client::hash::normalised_hash("groupX", "999", 100));
}

#[test]
fn test_normalised_variant_hash() {
    assert_eq!(96, normalised_variant_hash("gr1", "123", 100));
    assert_eq!(60, normalised_variant_hash("groupX", "999", 100));
}

#[test]
fn test_hash_is_one_based() {
    for id in ["a", "b", "c", "d", "e"] {
        let h = unleash_api_client::hash::normalised_hash("g", id, 7);
        assert!((1..=7).contains(&h));
    }
}
