//! The cap on the entries of a feed.

use localdb_core::error::Error;
use localdb_core::source::validate_max_entries;

#[test]
fn none_is_unbounded_and_valid() {
    assert_eq!(validate_max_entries(None).unwrap(), None);
}

#[test]
fn positive_values_are_valid() {
    assert_eq!(validate_max_entries(Some(1)).unwrap(), Some(1));
    assert_eq!(validate_max_entries(Some(50)).unwrap(), Some(50));
    assert_eq!(
        validate_max_entries(Some(u32::MAX)).unwrap(),
        Some(u32::MAX)
    );
}

#[test]
fn zero_is_rejected() {
    assert!(matches!(
        validate_max_entries(Some(0)),
        Err(Error::InvalidRequest { .. })
    ));
}
