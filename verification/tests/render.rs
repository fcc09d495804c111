use md_reader::document::MarkdownSource;
use md_reader::markdown::render::render_document;

#[test]
fn renders_toc_and_unique_heading_ids() {
    let source = MarkdownSource {
        path: "note.md".to_string(),
        base_dir: ".".to_string(),
        content: "# Title\n\n## Repeat\n\n## Repeat\n\n```rust\nfn main() {}\n```\n".to_string(),
    };

    let rendered = render_document(&source, &Vec::new());

    assert_eq!(rendered.toc.len(), 3);
    assert_eq!(rendered.toc[1].id, "repeat");
    assert_eq!(rendered.toc[2].id, "repeat-2");
    assert!(rendered.html.contains("id=\"repeat-2\""));
    assert!(rendered.html.contains("<pre"));
}

#[test]
fn renders_latex_math_events() {
    let source = MarkdownSource {
        path: "math.md".to_string(),
        base_dir: ".".to_string(),
        content: "Inline $\\alpha^2$.\n\n$$\\frac{1}{2}$$\n".to_string(),
    };

    let rendered = render_document(&source, &Vec::new());

    assert!(rendered.html.contains("math-inline"));
    assert!(rendered.html.contains("math-display"));
    assert!(rendered.html.contains("mfrac"));
    assert!(rendered.html.contains("α"));
}
