use md_reader::cli::is_markdown_path;
use md_reader::path::{extension_of, file_name_of, file_stem_of, is_absolute_path, join_path};

fn s(v: &str) -> Option<String> {
    Some(v.to_string())
}

#[test]
fn file_names_split_on_both_separators() {
    assert_eq!(file_name_of("C:\\docs\\note.md"), s("note.md"));
    assert_eq!(file_name_of("docs/sub\\note.md"), s("note.md"));
    assert_eq!(file_name_of("C:\\docs\\."), s("docs"));
    assert_eq!(file_name_of("C:\\docs\\"), s("docs"));
    assert_eq!(file_name_of("C:foo.md"), s("foo.md"));
    assert_eq!(file_name_of("C:"), None);
    assert_eq!(file_name_of("C:\\"), None);
    assert_eq!(file_name_of("a\\.."), None);
    assert_eq!(file_name_of("\\\\server\\share"), None);
    assert_eq!(file_name_of("\\\\server\\share\\x.md"), s("x.md"));
    assert_eq!(file_name_of("\\\\?\\C:\\docs\\a.md"), s("a.md"));
    assert_eq!(file_name_of("\\\\?\\C:\\docs\\."), None);
    assert_eq!(file_name_of("\\\\?\\C:\\a/b.md"), s("a/b.md"));
    assert_eq!(file_stem_of("path\\to\\file.md"), s("file"));
    assert_eq!(file_stem_of("C:\\x\\.hidden"), s(".hidden"));
    assert_eq!(extension_of("path\\to\\file.MD"), s("MD"));
    assert_eq!(extension_of("dir.md\\file"), None);
}

#[test]
fn markdown_paths_on_the_command_line() {
    assert!(is_markdown_path("path\\to\\file.md"));
    assert!(is_markdown_path("C:\\Notes\\Plan.Markdown"));
    assert!(!is_markdown_path("dir.md\\file"));
    assert!(!is_markdown_path("C:.md"));
}

#[test]
fn absolute_paths_need_a_prefix_and_a_root() {
    assert!(is_absolute_path("C:\\x.png"));
    assert!(is_absolute_path("C:/x.png"));
    assert!(is_absolute_path("\\\\server\\share\\x.png"));
    assert!(is_absolute_path("\\\\?\\C:\\x.png"));
    assert!(is_absolute_path("\\\\.\\COM1"));
    assert!(!is_absolute_path("C:x.png"));
    assert!(!is_absolute_path("\\x.png"));
    assert!(!is_absolute_path("/x.png"));
    assert!(!is_absolute_path("x.png"));
}

#[test]
fn joining_follows_windows_rules() {
    assert_eq!(join_path("C:\\docs", "a.png"), "C:\\docs\\a.png");
    assert_eq!(join_path("C:\\docs/", "a.png"), "C:\\docs/a.png");
    assert_eq!(join_path("C:", "a.png"), "C:a.png");
    assert_eq!(join_path("", "a.png"), "a.png");
    assert_eq!(join_path("C:\\docs", "\\a.png"), "C:\\a.png");
    assert_eq!(join_path("docs", "/a.png"), "/a.png");
    assert_eq!(join_path("C:\\docs", "D:x"), "D:x");
    assert_eq!(join_path("C:\\docs", "D:\\x"), "D:\\x");
    assert_eq!(join_path("\\\\?\\C:\\docs", "img/./b/../a.png"), "\\\\?\\C:\\docs\\img\\a.png");
    assert_eq!(join_path("\\\\?\\C:\\docs", "../../a.png"), "\\\\?\\C:\\a.png");
    assert_eq!(join_path("\\\\?\\C:\\docs", "\\a.png"), "\\\\?\\C:\\a.png");
    assert_eq!(join_path("\\\\?\\C:", "a.png"), "\\\\?\\C:\\a.png");
    assert_eq!(join_path("\\\\?\\C:\\docs", ""), "\\\\?\\C:\\docs\\");
}
