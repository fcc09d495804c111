use md_reader::markdown::sanitize::{clean, keep_attribute};

#[test]
fn removes_scripts_and_keeps_allowed_tags() {
    assert_eq!(clean("<script>alert(1)</script><p>hi</p>"), "<p>hi</p>");
    assert_eq!(clean("<h2 id=\"x\">T</h2>"), "<h2 id=\"x\">T</h2>");
}

#[test]
fn filters_image_and_link_sources() {
    assert!(keep_attribute("img", "src", "data:image/png;base64,AA"));
    assert!(!keep_attribute("img", "src", "http://example.com/a.png"));
    assert!(!keep_attribute("img", "src", ""));
    assert!(!keep_attribute("a", "href", "data:text/html,x"));
    assert!(keep_attribute("a", "href", "https://example.com"));
    assert!(keep_attribute("p", "class", "data:x"));
    assert_eq!(clean("<img src=\"http://example.com/a.png\">"), "<img>");
    assert_eq!(
        clean("<img src=\"data:image/png;base64,AA\">"),
        "<img src=\"data:image/png;base64,AA\">"
    );
}
