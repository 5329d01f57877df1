//! Command ids.

use indexd::ids::{new_id, short_id};

#[test]
fn ids_are_four_lowercase_hex_characters() {
    for _ in 0..100 {
        let id = new_id();
        assert_eq!(id.len(), 4, "{id}");
        assert!(
            id.chars().all(|c| c.is_ascii_hexdigit() && !c.is_ascii_uppercase()),
            "{id}"
        );
    }
}

#[test]
fn an_id_is_the_start_of_a_uuid() {
    assert_eq!(short_id("67e55044-10b1-426f-9247-bb680e5fe0c8"), "67e5");
    assert_eq!(short_id("67"), "67");
}
