use leptos_demos::keyed::KeyError;
use leptos_demos::rows::{DatabaseEntry, Table};

#[test]
fn entry_key_is_decimal() {
    assert_eq!(DatabaseEntry::from_parts(0, 5).key, "0");
    assert_eq!(DatabaseEntry::from_parts(7, 5).key, "7");
    assert_eq!(DatabaseEntry::from_parts(42, 5).key, "42");
    assert_eq!(DatabaseEntry::from_parts(255, -1), DatabaseEntry { key: "255".to_string(), value: -1 });
}

#[test]
fn random_entries_stay_in_range() {
    for _ in 0..200 {
        let e = DatabaseEntry::new();
        assert!((0..100).contains(&e.value));
        let k: u32 = e.key.parse().unwrap();
        assert!(k < 256);
        assert_eq!(k.to_string(), e.key);
    }
}

#[test]
fn add_double_remove() {
    let mut t = Table::new();
    assert_eq!(t.add(DatabaseEntry::from_parts(1, 10)), Ok(()));
    assert_eq!(t.add(DatabaseEntry::from_parts(2, 20)), Ok(()));
    assert_eq!(t.add(DatabaseEntry::from_parts(3, 30)), Ok(()));
    assert_eq!(t.add(DatabaseEntry::from_parts(2, 99)), Err(KeyError::DuplicateKey));
    t.double_values();
    let values: Vec<i32> = t.rows().iter().map(|e| e.value).collect();
    assert_eq!(values, vec![20, 40, 60]);
    t.remove(&"2".to_string());
    assert_eq!(t.keys(), vec!["1".to_string(), "3".to_string()]);
    t.remove(&"9".to_string());
    assert_eq!(t.keys(), vec!["1".to_string(), "3".to_string()]);
    assert_eq!(t.rows()[1], DatabaseEntry::from_parts(3, 60));
}

#[test]
fn doubling_wraps() {
    let mut t = Table::new();
    t.add(DatabaseEntry::from_parts(1, i32::MAX)).unwrap();
    t.add(DatabaseEntry::from_parts(2, 1 << 30)).unwrap();
    t.double_values();
    let values: Vec<i32> = t.rows().iter().map(|e| e.value).collect();
    assert_eq!(values, vec![-2, i32::MIN]);
}
