use leptos_demos::store::{Formula, Store, Tracker};

#[test]
fn read_returns_last_write() {
    let mut s = Store::new();
    let a = s.create_cell(5);
    assert_eq!(s.get(a), 5);
    for v in [1, -7, 42, 0, i32::MAX, i32::MIN] {
        s.set(a, v);
        assert_eq!(s.get(a), v);
    }
}

#[test]
fn revisions_strictly_increase() {
    let mut s = Store::new();
    let a = s.create_cell(0);
    let b = s.create_cell(0);
    let r0 = s.revision(a);
    s.set(a, 1);
    let r1 = s.revision(a);
    s.set(b, 1);
    s.set(a, 1);
    let r2 = s.revision(a);
    assert!(r0 < r1 && r1 < r2);
}

#[test]
fn derived_sum_skips_unrelated_write() {
    let mut s = Store::new();
    let a = s.create_cell(1);
    let b = s.create_cell(2);
    let c = s.create_cell(3);
    let m = s.derive(Formula::Sum, vec![a, b]);
    assert_eq!(s.read(m), (3, true));
    assert_eq!(s.read(m), (3, false));
    let subs = s.set(c, 100);
    assert!(subs.is_empty());
    assert_eq!(s.read(m), (3, false));
    let subs = s.set(b, 10);
    assert_eq!(subs, vec![m]);
    assert_eq!(s.read(m), (11, true));
    assert_eq!(s.read(m), (11, false));
}

#[test]
fn writing_the_same_value_still_reruns() {
    let mut s = Store::new();
    let a = s.create_cell(4);
    let m = s.derive(Formula::Scale(3), vec![a]);
    assert_eq!(s.read(m), (12, true));
    s.set(a, 4);
    assert_eq!(s.read(m), (12, true));
}

#[test]
fn increment_updates_double_count() {
    let mut s = Store::new();
    let count = s.create_cell(0);
    let double = s.derive(Formula::Scale(2), vec![count]);
    let large = s.derive(Formula::Above(5), vec![count]);
    assert_eq!(s.read(double).0, 0);
    for n in 1..=7 {
        let subs = s.set(count, n);
        assert_eq!(subs, vec![double, large]);
        assert_eq!(s.get(count), n);
        assert_eq!(s.read(double).0, 2 * n as i128);
        assert_eq!(s.read(large).0, if n > 5 { 1 } else { 0 });
    }
}

#[test]
fn derived_values_do_not_overflow() {
    let mut s = Store::new();
    let a = s.create_cell(i32::MAX);
    let b = s.create_cell(i32::MAX);
    let sum = s.derive(Formula::Sum, vec![a, b, a]);
    let scaled = s.derive(Formula::Scale(i32::MIN), vec![a, b]);
    assert_eq!(s.read(sum).0, 3 * i32::MAX as i128);
    assert_eq!(s.read(scaled).0, i32::MIN as i128 * 2 * i32::MAX as i128);
}

#[test]
fn derived_over_no_cells() {
    let mut s = Store::new();
    let m = s.derive(Formula::Sum, vec![]);
    assert_eq!(s.read(m), (0, true));
    assert_eq!(s.read(m), (0, false));
}

#[test]
fn tracker_collects_reads_per_frame() {
    let mut s = Store::new();
    let a = s.create_cell(2);
    let b = s.create_cell(3);
    let c = s.create_cell(4);
    let mut t = Tracker::new();
    assert_eq!(t.read(&s, c), 4);
    t.begin();
    let x = t.read(&s, a);
    t.begin();
    assert_eq!(t.read(&s, c), 4);
    assert_eq!(t.end(), vec![c]);
    let y = t.read(&s, b);
    let deps = t.end();
    assert_eq!(deps, vec![a, b]);
    let m = s.derive(Formula::Sum, deps);
    assert_eq!(s.read(m).0, (x + y) as i128);
    s.set(c, 0);
    assert_eq!(s.read(m), (5, false));
}
