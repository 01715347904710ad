use leptos_demos::resource::{load_data_10, load_data_20, LoadState, Resource};
use leptos_demos::store::Store;

#[test]
fn only_latest_key_is_stored() {
    let mut r: Resource<i32, String> = Resource::new();
    assert_eq!(r.state(), LoadState::Idle);
    let q0 = r.request(0);
    let q1 = r.request(1);
    let q2 = r.request(2);
    assert_eq!((q0.key, q1.key, q2.key), (0, 1, 2));
    assert!(r.loading());
    assert_eq!(r.state(), LoadState::Loading);
    assert!(r.complete(q2.seq, Ok(load_data_10(q2.key))));
    assert!(!r.complete(q1.seq, Ok(load_data_10(q1.key))));
    assert!(!r.complete(q0.seq, Ok(load_data_10(q0.key))));
    assert_eq!(r.get(), &Some(Ok(20)));
    assert!(!r.loading());
    assert_eq!(r.state(), LoadState::Ready);
}

#[test]
fn stale_result_before_latest_is_dropped() {
    let mut r: Resource<i32, String> = Resource::new();
    let q0 = r.request(0);
    let q1 = r.request(1);
    let q2 = r.request(2);
    assert!(!r.complete(q0.seq, Ok(0)));
    assert!(!r.complete(q1.seq, Ok(10)));
    assert_eq!(r.get(), &None);
    assert!(r.loading());
    assert!(r.complete(q2.seq, Ok(20)));
    assert_eq!(r.get(), &Some(Ok(20)));
}

#[test]
fn loader_failure_is_stored_as_error() {
    let mut r: Resource<i32, String> = Resource::new();
    let q = r.request(3);
    assert!(r.complete(q.seq, Err("unreachable".to_string())));
    assert_eq!(r.get(), &Some(Err("unreachable".to_string())));
    assert!(!r.complete(q.seq, Ok(30)));
    let q = r.request(4);
    assert_eq!(r.get(), &Some(Err("unreachable".to_string())));
    assert!(r.complete(q.seq, Ok(40)));
    assert_eq!(r.get(), &Some(Ok(40)));
}

#[test]
fn mock_services() {
    assert_eq!(load_data_10(7), 70);
    assert_eq!(load_data_10(-3), -30);
    assert_eq!(load_data_20(7), 140);
    assert_eq!(load_data_20(0), 0);
}

#[test]
fn follows_key_cell_and_keeps_only_last() {
    let mut s = Store::new();
    let key = s.create_cell(0);
    let mut r: Resource<i32, ()> = Resource::new();
    let q0 = r.follow(s.revision(key), s.get(key)).unwrap();
    assert!(r.follow(s.revision(key), s.get(key)).is_none());
    s.set(key, 1);
    let q1 = r.follow(s.revision(key), s.get(key)).unwrap();
    s.set(key, 2);
    let q2 = r.follow(s.revision(key), s.get(key)).unwrap();
    assert_eq!((q0.key, q1.key, q2.key), (0, 1, 2));
    assert_eq!(r.latest(), 3);
    // the loader for key 2 answers first, the one for key 1 later
    assert!(r.complete(q2.seq, Ok(load_data_10(q2.key))));
    assert!(!r.complete(q1.seq, Ok(load_data_10(q1.key))));
    assert!(!r.complete(q0.seq, Ok(load_data_10(q0.key))));
    assert_eq!(r.get(), &Some(Ok(20)));
}
