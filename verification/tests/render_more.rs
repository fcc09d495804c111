use md_reader::document::MarkdownSource;
use md_reader::markdown::render::{first_language_token, image_destinations, image_src, render_document, render_html, markdown_options};
use md_reader::markdown::toc::collect;

fn source(path: &str, content: &str) -> MarkdownSource {
    MarkdownSource { path: path.to_string(), base_dir: ".".to_string(), content: content.to_string() }
}

#[test]
fn inlines_resolved_images_only() {
    let doc = source("n.md", "![a](img.png) ![b](missing.png)\n");
    let images = vec![("img.png".to_string(), "data:image/png;base64,AAAA".to_string())];
    let rendered = render_document(&doc, &images);
    assert!(rendered.html.contains("src=\"data:image/png;base64,AAAA\""));
    assert_eq!(rendered.html.matches("src=").count(), 1);
    assert_eq!(image_destinations(&doc.content), vec!["img.png".to_string(), "missing.png".to_string()]);
    assert_eq!(image_src(&images, "missing.png"), "");
}

#[test]
fn images_in_headings_are_not_resolved() {
    assert_eq!(image_destinations("# ![h](h.png)\n\n![a](a.png)\n"), vec!["a.png".to_string()]);
}

#[test]
fn title_falls_back_to_file_stem() {
    assert_eq!(render_document(&source("dir/note.md", "text\n"), &Vec::new()).title, "note");
    assert_eq!(render_document(&source("path\\to\\file.md", "text\n"), &Vec::new()).title, "file");
    assert_eq!(render_document(&source("\\\\?\\C:\\docs\\read.me.md", "text\n"), &Vec::new()).title, "read.me");
    assert_eq!(render_document(&source("", "text\n"), &Vec::new()).title, "Markdown Reader");
    assert_eq!(render_document(&source("n.md", "##### Deep\n\n# Top\n"), &Vec::new()).title, "Top");
}

#[test]
fn headings_get_anchors_beyond_the_toc() {
    let (html, toc) = render_html("##### Deep `code`\n\n# $x$\n", markdown_options(), &Vec::new());
    assert_eq!(toc.len(), 1);
    assert_eq!(toc[0].id, "x");
    assert!(html.contains("<h5 id=\"deep-code\">Deep code</h5>"));
    assert!(html.contains("<h1 id=\"x\">x</h1>"));
}

#[test]
fn code_blocks() {
    let (html, _) = render_html("    indented <b>\n", markdown_options(), &Vec::new());
    assert_eq!(html, "<pre><code class=\"language-\">indented &lt;b&gt;\n</code></pre>");
    let (html, _) = render_html("```\nplain\n```\n", markdown_options(), &Vec::new());
    assert_eq!(html, "<pre><code class=\"language-\">plain\n</code></pre>");
    let (html, _) = render_html("```python extra\nx = 1\n```\n", markdown_options(), &Vec::new());
    assert!(html.starts_with("<pre style="));
    assert_eq!(first_language_token("  python extra"), "python");
    assert_eq!(first_language_token("   "), "");
}

#[test]
fn collect_skips_empty_headings() {
    let items = collect("# \n\n## B\n\n## B\n", markdown_options());
    assert_eq!(items.len(), 2);
    assert_eq!(items[0].id, "b");
    assert_eq!(items[1].id, "b-2");
    assert_eq!(items[0].text, "B");
}
