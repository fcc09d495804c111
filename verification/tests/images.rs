use md_reader::markdown::images::{
    escape_would_split, image_data_url, image_size_allowed, local_image_candidate,
    local_image_splits_char, normalize_local_path, percent_decode_minimal, strip_fragment,
};

#[test]
fn decodes_percent_escapes() {
    assert_eq!(percent_decode_minimal("a%20b"), "a b");
    assert_eq!(percent_decode_minimal("no-escapes"), "no-escapes");
    assert_eq!(percent_decode_minimal("%zz%"), "%zz%");
    assert_eq!(percent_decode_minimal("%+f"), "\u{f}");
    assert_eq!(percent_decode_minimal("%C3%A9"), "é");
    assert_eq!(percent_decode_minimal("%e9"), "%e9");
}

#[test]
fn detects_escapes_that_split_characters() {
    assert!(escape_would_split("%a\u{e9}"));
    assert!(!escape_would_split("%\u{e9}x"));
    assert!(!escape_would_split("plain"));
    assert!(local_image_splits_char("%a\u{e9}.png"));
    assert!(!local_image_splits_char("http://%a\u{e9}"));
}

#[test]
fn local_paths() {
    assert_eq!(strip_fragment("a.png#x#y"), "a.png");
    assert_eq!(normalize_local_path("C:\\docs", "img/a%20b.png#frag"), Some("C:\\docs\\img/a b.png".to_string()));
    assert_eq!(normalize_local_path("C:\\docs\\", "a.png"), Some("C:\\docs\\a.png".to_string()));
    assert_eq!(normalize_local_path("", "a.png"), Some("a.png".to_string()));
    assert_eq!(normalize_local_path("C:\\docs", "C:\\etc\\a.png"), None);
    assert_eq!(normalize_local_path("C:\\docs", "C%3A%5Cetc%5Ca.png"), None);
    assert_eq!(normalize_local_path("C:\\docs", "/etc/a.png"), Some("C:/etc/a.png".to_string()));
    assert_eq!(
        normalize_local_path("\\\\?\\C:\\docs", "img/../sub/./a%20b.png"),
        Some("\\\\?\\C:\\docs\\sub\\a b.png".to_string())
    );
}

#[test]
fn remote_and_inline_images_are_not_local() {
    assert_eq!(local_image_candidate("/d", "http://x/a.png"), None);
    assert_eq!(local_image_candidate("/d", "https://x/a.png"), None);
    assert_eq!(local_image_candidate("/d", "data:image/png;base64,AA"), None);
    assert_eq!(local_image_candidate("/d", "#top"), None);
    assert_eq!(local_image_candidate("C:\\d", "a.png"), Some("C:\\d\\a.png".to_string()));
}

#[test]
fn size_limit() {
    assert!(image_size_allowed(true, 5 * 1024 * 1024));
    assert!(!image_size_allowed(true, 5 * 1024 * 1024 + 1));
    assert!(!image_size_allowed(false, 1));
}

#[test]
fn data_urls() {
    assert_eq!(image_data_url("x.png", b"hello"), "data:image/png;base64,aGVsbG8=");
    assert_eq!(image_data_url("x.JPG", b"hell"), "data:image/jpeg;base64,aGVsbA==");
    assert_eq!(image_data_url("x.unknownext", b"hel"), "data:application/octet-stream;base64,aGVs");
    assert_eq!(image_data_url("x.gif", b""), "data:image/gif;base64,");
}
