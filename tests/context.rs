use leptos_demos::context::Scopes;

const SETTER: u64 = 1;
const THEME: u64 = 2;

#[test]
fn nearest_provider_wins() {
    let mut sc: Scopes<usize> = Scopes::new();
    let parent = sc.child(0);
    let child = sc.child(parent);
    let grandchild = sc.child(child);
    sc.provide(0, SETTER, 10);
    sc.provide(parent, SETTER, 20);
    assert_eq!(sc.lookup(grandchild, SETTER), Some(20));
    sc.provide(child, SETTER, 30);
    assert_eq!(sc.lookup(grandchild, SETTER), Some(30));
    assert_eq!(sc.lookup(parent, SETTER), Some(20));
    assert_eq!(sc.lookup(0, SETTER), Some(10));
}

#[test]
fn absent_tag_is_reported() {
    let mut sc: Scopes<usize> = Scopes::new();
    let a = sc.child(0);
    let b = sc.child(a);
    let side = sc.child(0);
    sc.provide(side, THEME, 7);
    assert_eq!(sc.lookup(b, THEME), None);
    assert_eq!(sc.lookup(side, THEME), Some(7));
    assert_eq!(sc.lookup(b, SETTER), None);
}

#[test]
fn later_provide_in_same_scope_hides_earlier() {
    let mut sc: Scopes<usize> = Scopes::new();
    sc.provide(0, SETTER, 1);
    sc.provide(0, THEME, 2);
    sc.provide(0, SETTER, 3);
    assert_eq!(sc.lookup(0, SETTER), Some(3));
    assert_eq!(sc.lookup(0, THEME), Some(2));
}
