use diskann_provider::keys::{decimal_string, key_for};
use diskann_provider::provider::{KeySpace, ProviderError};

#[test]
fn decimal_forms() {
    assert_eq!(decimal_string(0), "0");
    assert_eq!(decimal_string(7), "7");
    assert_eq!(decimal_string(10), "10");
    assert_eq!(decimal_string(999), "999");
    assert_eq!(decimal_string(1_000_000_007), "1000000007");
    assert_eq!(decimal_string(usize::MAX), usize::MAX.to_string());
}

#[test]
fn keys_are_prefix_colon_id() {
    assert_eq!(key_for("pathXYZ", 1), "pathXYZ:1");
    assert_eq!(key_for("pathXYZ", 0), "pathXYZ:0");
    assert_eq!(key_for("", 42), ":42");
    assert_eq!(key_for("a:b", 120), "a:b:120");
}

#[test]
fn distinct_ids_distinct_keys() {
    let keys: std::collections::HashSet<String> = (0..1000).map(|i| key_for("pathXYZ", i)).collect();
    assert_eq!(keys.len(), 1000);
}

#[test]
fn key_space_keys() {
    let ks = KeySpace::new("pathXYZ".to_string(), 5);
    assert_eq!(ks.get_key(1), "pathXYZ:1");
    assert_eq!(ks.dimension, 5);
    assert_eq!(ks.path_prefix, "pathXYZ");
}

#[test]
fn set_request_checks_dimension() {
    let ks = KeySpace::new("pathXYZ".to_string(), 5);
    let (key, value) = ks.set_request(1, vec![1, 2, 3, 4, 5]).unwrap();
    assert_eq!(key, "pathXYZ:1");
    assert_eq!(value, vec![1, 2, 3, 4, 5]);
    assert_eq!(ks.set_request(1, vec![1, 2, 3]).unwrap_err(), ProviderError::DimensionMismatch);
    assert_eq!(ks.set_request(2, vec![0; 6]).unwrap_err(), ProviderError::DimensionMismatch);
    assert_eq!(ProviderError::DimensionMismatch.message(), "Dimension mismatch");
}

#[test]
fn read_key_is_write_key() {
    let ks = KeySpace::new("vecs".to_string(), 2);
    let (key, _) = ks.set_request(31, vec![9, 9]).unwrap();
    assert_eq!(key, ks.get_key(31));
    assert_ne!(key, ks.get_key(3));
}
