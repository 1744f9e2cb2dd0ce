use wildbits::names::{hash_of, PathTable};

#[test]
fn hash_is_crc32() {
    assert_eq!(hash_of("123456789"), 0xCBF43926);
    assert_eq!(hash_of(""), 0);
    assert_eq!(hash_of("a"), 0xE8B7BE43);
}

#[test]
fn added_names_are_found_under_their_hash() {
    let mut names = PathTable::new();
    assert_eq!(names.lookup(hash_of("My/New/Thing.bfres")), None);
    let hash = names.add_name("My/New/Thing.bfres");
    assert_eq!(hash, hash_of("My/New/Thing.bfres"));
    assert_eq!(names.lookup(hash), Some("My/New/Thing.bfres".to_string()));
    names.insert("Other/Thing.bfres");
    assert_eq!(names.lookup(hash_of("Other/Thing.bfres")), Some("Other/Thing.bfres".to_string()));
    assert_eq!(names.lookup(hash), Some("My/New/Thing.bfres".to_string()));
}

#[test]
fn stock_names_are_known_from_the_start() {
    let names = PathTable::new();
    let path = "EventFlow/PictureMemory.bfevfl";
    assert_eq!(names.lookup(hash_of(path)), Some(path.to_string()));
}

#[test]
fn added_name_overrides_the_stock_one() {
    let mut names = PathTable::new();
    let hash = hash_of("EventFlow/PictureMemory.bfevfl");
    names.record(hash, "Renamed".to_string());
    assert_eq!(names.lookup(hash), Some("Renamed".to_string()));
}

#[test]
fn overlay_is_what_the_stock_list_lacks() {
    let mut names = PathTable::new();
    names.insert("EventFlow/PictureMemory.bfevfl");
    names.insert("My/New/Thing.bfres");
    names.insert("Another/New/Thing.bfres");
    names.insert("My/New/Thing.bfres");
    let mut overlay = names.overlay();
    overlay.sort();
    let mut expected = vec![
        (hash_of("My/New/Thing.bfres"), "My/New/Thing.bfres".to_string()),
        (hash_of("Another/New/Thing.bfres"), "Another/New/Thing.bfres".to_string()),
    ];
    expected.sort();
    assert_eq!(overlay, expected);
    assert_eq!(PathTable::new().overlay(), vec![]);
}

#[test]
fn overlay_can_be_loaded_again() {
    let entries = vec![(1u32, "one".to_string()), (2u32, "two".to_string()), (1u32, "uno".to_string())];
    let names = PathTable::from_overlay(entries);
    assert_eq!(names.lookup(1), Some("uno".to_string()));
    assert_eq!(names.lookup(2), Some("two".to_string()));
    assert_eq!(names.overlay().len(), 2);
}
