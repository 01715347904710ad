use leptos_demos::pages::{
    apply_action, fetch_results, increment, is_odd, is_selected, loading_label, param_or_default,
    route, same_text, size_message, CounterAction, Page,
};

#[test]
fn routes_to_pages() {
    let cases = [
        ("/", Page::Home),
        ("/conditionals", Page::Conditionals),
        ("/lists", Page::Lists),
        ("/inputs", Page::Inputs),
        ("/hierarchy", Page::Hierarchy),
        ("/todo", Page::ToDo),
        ("/load_data", Page::LoadData),
        ("/contacts", Page::Contacts),
        ("/search", Page::Search),
        ("/nowhere", Page::NotFound),
        ("", Page::NotFound),
        ("/contacts/", Page::NotFound),
        ("/contacts/a/b", Page::NotFound),
    ];
    for (path, page) in cases {
        let m = route(path);
        assert_eq!(m.page, page, "{path}");
        assert_eq!(m.id, "");
    }
}

#[test]
fn contact_route_carries_id() {
    let m = route("/contacts/alice");
    assert_eq!(m.page, Page::Contact);
    assert_eq!(m.id, "alice");
    assert_eq!(route("/contacts/bob").id, "bob");
}

#[test]
fn search_results() {
    assert_eq!(fetch_results(""), "");
    assert_eq!(fetch_results("rust"), "https:/website.com/rust");
}

#[test]
fn query_params() {
    let pairs = vec![
        ("page".to_string(), "2".to_string()),
        ("q".to_string(), "leptos".to_string()),
        ("q".to_string(), "other".to_string()),
    ];
    assert_eq!(param_or_default(&pairs, "q"), "leptos");
    assert_eq!(param_or_default(&pairs, "page"), "2");
    assert_eq!(param_or_default(&pairs, "id"), "");
    assert_eq!(param_or_default(&vec![], "q"), "");
}

#[test]
fn counters() {
    assert_eq!(increment(0), 1);
    assert_eq!(increment(-1), 0);
    assert!(is_odd(1));
    assert!(!is_odd(2));
    assert!(!is_odd(0));
    assert!(!is_odd(-3));
    assert!(is_odd(i32::MAX));
    assert_eq!(size_message(5), "Small");
    assert_eq!(size_message(6), "Large");
    assert_eq!(size_message(-10), "Small");
    assert_eq!(apply_action(CounterAction::Clear, 17), 0);
    assert_eq!(apply_action(CounterAction::Decrement, 17), 16);
    assert_eq!(apply_action(CounterAction::Increment, 17), 18);
}

#[test]
fn labels_and_selection() {
    assert_eq!(loading_label(true), "Loading...");
    assert_eq!(loading_label(false), "Idle.");
    assert!(is_selected(&"B".to_string(), "B"));
    assert!(!is_selected(&"B".to_string(), "C"));
    assert!(same_text("héllo", "héllo"));
    assert!(!same_text("héllo", "hello"));
    assert!(!same_text("ab", "abc"));
}
