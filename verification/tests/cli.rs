use md_reader::cli::{is_markdown_path, startup_markdown_path, CliError};

#[test]
fn markdown_extensions_in_any_case() {
    assert!(is_markdown_path("notes.md"));
    assert!(is_markdown_path("NOTES.MD"));
    assert!(is_markdown_path("/path/to/file.markdown"));
    assert!(is_markdown_path("a.MarkDown"));
    assert!(is_markdown_path("dir/file.md/"));
    assert!(is_markdown_path("dir/file.md/."));
    assert!(is_markdown_path("..md"));
}

#[test]
fn other_paths_are_refused() {
    assert!(!is_markdown_path("a.txt"));
    assert!(!is_markdown_path(".md"));
    assert!(!is_markdown_path(""));
    assert!(!is_markdown_path("a.md/.."));
    assert!(!is_markdown_path("x.md.bak"));
    assert!(!is_markdown_path("md"));
    assert!(!is_markdown_path("a.md."));
    assert!(!is_markdown_path("/"));
}

#[test]
fn startup_path_rules() {
    assert_eq!(startup_markdown_path(None), Ok(None));
    assert_eq!(startup_markdown_path(Some("a.md".to_string())), Ok(Some("a.md".to_string())));
    assert_eq!(startup_markdown_path(Some("a.txt".to_string())), Err(CliError::UnsupportedExtension));
    assert_eq!(CliError::UnsupportedExtension.message(), "Only .md and .markdown files are supported.");
}
