use leptos_demos::keyed::{has_duplicates, index_of, KeyError, KeyedList};

fn keys(ks: &[&str]) -> Vec<String> {
    ks.iter().map(|k| k.to_string()).collect()
}

#[test]
fn removing_middle_key_tears_down_only_it() {
    let mut list: KeyedList<i32> = KeyedList::new();
    assert_eq!(list.reconcile(&keys(&["a", "b", "c"]), 0), Ok(vec![]));
    // give each item its own state
    let mut with_state: KeyedList<i32> = KeyedList::new();
    with_state.reconcile(&keys(&["a"]), 11).unwrap();
    with_state.reconcile(&keys(&["a", "b"]), 22).unwrap();
    with_state.reconcile(&keys(&["a", "b", "c"]), 33).unwrap();
    assert_eq!((with_state.item(0), with_state.item(1), with_state.item(2)), (11, 22, 33));
    let torn = with_state.reconcile(&keys(&["a", "c"]), 0).unwrap();
    assert_eq!(torn, vec![1]);
    assert_eq!(with_state.len(), 2);
    assert_eq!((with_state.item(0), with_state.item(1)), (11, 33));
}

#[test]
fn reorder_keeps_states() {
    let mut l: KeyedList<i32> = KeyedList::new();
    l.reconcile(&keys(&["x"]), 1).unwrap();
    l.reconcile(&keys(&["x", "y"]), 2).unwrap();
    let torn = l.reconcile(&keys(&["y", "z", "x"]), 3).unwrap();
    assert!(torn.is_empty());
    assert_eq!((l.item(0), l.item(1), l.item(2)), (2, 3, 1));
}

#[test]
fn duplicate_keys_are_refused() {
    let mut l: KeyedList<i32> = KeyedList::new();
    l.reconcile(&keys(&["a"]), 5).unwrap();
    assert_eq!(l.reconcile(&keys(&["a", "b", "a"]), 0), Err(KeyError::DuplicateKey));
    assert_eq!(l.len(), 1);
    assert_eq!(l.item(0), 5);
}

#[test]
fn key_helpers() {
    let ks = keys(&["p", "q", "p"]);
    assert_eq!(index_of(&ks, &"p".to_string()), Some(0));
    assert_eq!(index_of(&ks, &"q".to_string()), Some(1));
    assert_eq!(index_of(&ks, &"r".to_string()), None);
    assert!(has_duplicates(&ks));
    assert!(!has_duplicates(&keys(&["p", "q"])));
    assert!(!has_duplicates(&keys(&[])));
}
