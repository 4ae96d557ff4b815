//! The deterministic identifier generator.

use dictum::id::{base36_encode, generate_id};

#[test]
fn test_generate_id() {
    let id = generate_id("d", "We serve restaurant owners", "2024-01-15T10:30:00Z");
    assert!(id.starts_with("d-"));
    let hash_part = &id[2..];
    assert!(hash_part.len() >= 3 && hash_part.len() <= 6);
}

#[test]
fn test_deterministic() {
    let id1 = generate_id("d", "test", "2024-01-01T00:00:00Z");
    let id2 = generate_id("d", "test", "2024-01-01T00:00:00Z");
    assert_eq!(id1, id2);
}

#[test]
fn test_different_inputs() {
    let id1 = generate_id("d", "test1", "2024-01-01T00:00:00Z");
    let id2 = generate_id("d", "test2", "2024-01-01T00:00:00Z");
    assert_ne!(id1, id2);
}

#[test]
fn test_base36_encode() {
    assert_eq!(base36_encode(0), "0");
    assert_eq!(base36_encode(36), "10");
    assert_eq!(base36_encode(35), "z");
}

#[test]
fn exact_digest_values() {
    // The digest of the empty concatenation pins the digest call itself:
    // a wrapper handing its input back, or a constant, breaks these.
    assert_eq!(generate_id("d", "", ""), "d-1r6c4l");
    assert_eq!(generate_id("d", "test", "2024-01-01T00:00:00Z"), "d-1f6ow9");
    assert_eq!(
        generate_id("d", "We serve restaurant owners", "2024-01-15T10:30:00Z"),
        "d-1o2id5"
    );
}

#[test]
fn concatenation_without_separator() {
    // title and timestamp are digested as one run of bytes
    assert_eq!(generate_id("d", "a", "bc"), generate_id("d", "ab", "c"));
    assert_eq!(generate_id("x", "a", "bc"), "x-1fql5t");
}
