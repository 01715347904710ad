use leptos_demos::boundary::{parse_entry, render_boundary, BoundaryView, ValueError};

#[test]
fn parses_numbers() {
    assert_eq!(parse_entry("42"), Ok(42));
    assert_eq!(parse_entry("-17"), Ok(-17));
    assert_eq!(parse_entry("+8"), Ok(8));
    assert_eq!(parse_entry("-0"), Ok(0));
    assert_eq!(parse_entry("2147483647"), Ok(i32::MAX));
    assert_eq!(parse_entry("-2147483648"), Ok(i32::MIN));
}

#[test]
fn refuses_non_numbers() {
    for s in ["", "abc", "-", "+", "1.5", " 3", "3 ", "2147483648", "12a", "--1"] {
        assert_eq!(parse_entry(s), Err(ValueError::NotANumber), "{s:?}");
    }
}

#[test]
fn fallback_shows_until_input_is_valid_again() {
    let ok = vec![parse_entry("1"), parse_entry("2")];
    assert_eq!(render_boundary(&ok), BoundaryView::Content(vec![1, 2]));
    let bad = vec![parse_entry("1"), parse_entry("x"), parse_entry("y")];
    assert_eq!(render_boundary(&bad), BoundaryView::Fallback(vec![1, 2]));
    let fixed = vec![parse_entry("1"), parse_entry("5"), parse_entry("6")];
    assert_eq!(render_boundary(&fixed), BoundaryView::Content(vec![1, 5, 6]));
}

#[test]
fn empty_boundary_shows_content() {
    assert_eq!(render_boundary(&vec![]), BoundaryView::Content(vec![]));
}
