use collage::selection::is_selected;

fn some(s: &str) -> Option<String> {
    Some(String::from(s))
}

#[test]
fn every_file_is_selected_without_a_filter() {
    assert!(is_selected(true, &some("png"), &None));
    assert!(is_selected(true, &None, &None));
    assert!(is_selected(true, &some(""), &None));
}

#[test]
fn nothing_but_a_file_is_selected() {
    assert!(!is_selected(false, &some("png"), &None));
    assert!(!is_selected(false, &some("png"), &some("png")));
    assert!(!is_selected(false, &None, &None));
}

#[test]
fn filter_selects_the_equal_extension_only() {
    assert!(is_selected(true, &some("png"), &some("png")));
    assert!(!is_selected(true, &some("jpg"), &some("png")));
    assert!(!is_selected(true, &some("PNG"), &some("png")));
    assert!(!is_selected(true, &some("pn"), &some("png")));
    assert!(!is_selected(true, &some("png "), &some("png")));
    assert!(is_selected(true, &some(""), &some("")));
}

#[test]
fn filter_rejects_a_file_without_extension() {
    assert!(!is_selected(true, &None, &some("png")));
    assert!(!is_selected(true, &None, &some("")));
}
