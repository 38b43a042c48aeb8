use hemeroteca::anchor::{anchor_from_slug, generate_anchor};

#[test]
fn anchors_of_titles() {
    assert_eq!(generate_anchor("Hello, World!"), "#hello-world");
    assert_eq!(generate_anchor("  Élection 2024 "), "#lection-2024");
    assert_eq!(generate_anchor("Title"), "#title");
    assert_eq!(generate_anchor("!!!"), "#");
}

#[test]
fn anchors_of_slugs() {
    assert_eq!(anchor_from_slug("--a-b--"), "#a-b");
    assert_eq!(anchor_from_slug(""), "#");
    assert_eq!(anchor_from_slug("plain"), "#plain");
}
