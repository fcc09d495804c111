use md_reader::document::{check_markdown_file, DocumentError, MAX_MARKDOWN_BYTES};
use md_reader::instance::{forwarded_markdown_path, instance_role, legacy_lock_path, pending_path, InstanceRole};
use md_reader::links::{check_external_link, is_allowed_external_url};

#[test]
fn external_links() {
    assert!(is_allowed_external_url("https://example.com"));
    assert!(is_allowed_external_url("HTTP://EXAMPLE.COM"));
    assert!(is_allowed_external_url("mailto:a@b.c"));
    assert!(!is_allowed_external_url("file:///etc/passwd"));
    assert!(!is_allowed_external_url("javascript:alert(1)"));
    assert_eq!(check_external_link("https://x"), Ok(()));
    assert_eq!(
        check_external_link("ftp://x"),
        Err("Only http, https, and mailto links can be opened externally.".to_string())
    );
}

#[test]
fn document_size_and_kind() {
    assert!(check_markdown_file("/a.md", true, MAX_MARKDOWN_BYTES).is_ok());
    assert!(matches!(check_markdown_file("/a.md", true, MAX_MARKDOWN_BYTES + 1), Err(DocumentError::TooLarge)));
    match check_markdown_file("/dir", false, 0) {
        Err(DocumentError::NotFile(p)) => assert_eq!(p, "/dir"),
        _ => panic!("a directory is not a file"),
    }
    assert_eq!(DocumentError::Missing("x.md".to_string()).message(), "The file does not exist: x.md");
}

#[test]
fn instance_files_and_roles() {
    assert_eq!(pending_path("C:\\Temp"), "C:\\Temp\\md-reader\\pending.mdpath");
    assert_eq!(pending_path("C:\\Temp\\"), "C:\\Temp\\md-reader\\pending.mdpath");
    assert_eq!(legacy_lock_path("C:\\Temp"), "C:\\Temp\\md-reader\\md-reader.lock");
    assert_eq!(forwarded_markdown_path("  /a/b.md\n"), Some("/a/b.md".to_string()));
    assert_eq!(forwarded_markdown_path("/a/b.txt"), None);
    assert!(matches!(instance_role(true, false), InstanceRole::Primary(_)));
    assert!(matches!(instance_role(false, true), InstanceRole::Forwarded));
    assert!(matches!(instance_role(false, false), InstanceRole::Primary(_)));
}
