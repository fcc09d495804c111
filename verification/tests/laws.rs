use md_reader::instance::forwarded_markdown_path;
use md_reader::markdown::highlight::{normalize_language, Highlighter};
use md_reader::markdown::images::percent_decode_minimal;
use md_reader::markdown::render::{markdown_options, render_html};
use md_reader::markdown::sanitize::clean;
use md_reader::markdown::toc::{collect, Slugger};

#[test]
fn slugging_an_ascii_anchor_again_gives_it_back() {
    for text in ["Hello World!", "C++ & Rust", "", "  x  ", "--a--b--", "Version 2.0/beta"] {
        let r = Slugger::new().slug(text);
        assert_eq!(Slugger::new().slug(&r), r);
    }
}

#[test]
fn slug_numbers_count_each_base_separately() {
    let mut s = Slugger::default();
    let got: Vec<String> = ["A", "B", "a", "b!", "A"].iter().map(|t| s.slug(t)).collect();
    assert_eq!(got, vec!["a", "b", "a-2", "b-2", "a-3"]);
}

#[test]
fn normalizing_a_language_twice_changes_nothing() {
    for l in ["JS", "tsx", "Shell", "ps1", "py", "RS", "yml", "md", "jsonc", "Rust", "go", ""] {
        let once = normalize_language(l);
        assert_eq!(normalize_language(&once), once);
    }
    assert_eq!(normalize_language("Go"), "Go");
}

#[test]
fn fully_escaped_paths_decode_to_themselves() {
    for text in ["你好 a/b%", "plain", "é%20"] {
        let escaped: String = text.bytes().map(|b| format!("%{:02X}", b)).collect();
        assert_eq!(percent_decode_minimal(&escaped), text);
    }
}

#[test]
fn rendered_toc_matches_collected_toc() {
    let doc = "# One\n\n## Two `x`\n\n```\n# not a heading\n```\n\n### One\n\n#### $y$\n";
    let (_, toc) = render_html(doc, markdown_options(), &Vec::new());
    let items = collect(doc, markdown_options());
    assert_eq!(toc.len(), items.len());
    for (a, b) in toc.iter().zip(items.iter()) {
        assert_eq!((a.level, &a.id, &a.text), (b.level, &b.id, &b.text));
    }
    assert_eq!(items[2].id, "one-2");
}

#[test]
fn headings_get_slug_anchors_in_order() {
    let (html, _) = render_html("# A {#own}\n\n###### A\n\n# B\n", markdown_options(), &Vec::new());
    let a1 = html.find("id=\"a\"").unwrap();
    let a2 = html.find("id=\"a-2\"").unwrap();
    let b = html.find("id=\"b\"").unwrap();
    assert!(a1 < a2 && a2 < b);
    assert!(!html.contains("own"));
}

#[test]
fn math_and_code_blocks_are_replaced_in_place() {
    let (html, _) = render_html("x $a$ y\n\n```\na<b\n```\n", markdown_options(), &Vec::new());
    assert!(html.contains("math-inline"));
    assert!(html.contains("<pre><code class=\"language-\">a&lt;b"));
}

#[test]
fn unknown_languages_fall_back_to_plain_text_highlighting() {
    let h = Highlighter::new();
    let html = h.highlight("no-such-language", "a<b");
    assert!(html.starts_with("<pre style=\"background-color:#181825;\">\n"));
    assert!(html.contains("a&lt;b"));
    assert!(!html.contains("<code"));
}

#[test]
fn highlighting_uses_the_mocha_background() {
    let h = Highlighter::new();
    let html = h.highlight("rs", "fn main() {}\n");
    assert!(html.starts_with("<pre style=\"background-color:#181825;\">\n"));
    assert!(html.ends_with("</pre>\n"));
    assert!(html.contains("color:#cba6f7"));
}

#[test]
fn relative_links_are_removed_when_cleaning() {
    assert_eq!(clean("<a href=\"other.md\">x</a>"), "<a rel=\"noopener noreferrer\">x</a>");
    assert_eq!(
        clean("<a href=\"https://example.com\">x</a>"),
        "<a href=\"https://example.com\" rel=\"noopener noreferrer\">x</a>"
    );
}

#[test]
fn forwarded_paths_survive_the_pending_file() {
    let first = forwarded_markdown_path("  notes/a.md \n").unwrap();
    assert_eq!(first, "notes/a.md");
    assert_eq!(forwarded_markdown_path(&first), Some(first.clone()));
    assert_eq!(forwarded_markdown_path("a.txt"), None);
}
