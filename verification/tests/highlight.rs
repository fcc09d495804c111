use md_reader::markdown::highlight::{color, mocha_theme, normalize_language, plain_code, Highlighter};

#[test]
fn expands_language_aliases() {
    assert_eq!(normalize_language("JS"), "javascript");
    assert_eq!(normalize_language("tsx"), "typescript");
    assert_eq!(normalize_language("zsh"), "bash");
    assert_eq!(normalize_language("yml"), "yaml");
    assert_eq!(normalize_language("Rust"), "Rust");
}

#[test]
fn plain_code_escapes() {
    assert_eq!(
        plain_code("a<b", "x & y </pre>"),
        "<pre><code class=\"language-a&lt;b\">x &amp; y &lt;&#x2F;pre&gt;</code></pre>"
    );
}

#[test]
fn colors_and_theme() {
    let c = color(0x123456);
    assert_eq!((c.r, c.g, c.b, c.a), (0x12, 0x34, 0x56, 0xff));
    let t = mocha_theme();
    assert_eq!(t.scopes.len(), 17);
    assert_eq!(t.scopes[0].scope, "comment");
    assert_eq!(t.name, "Catppuccin Mocha Reader");
}

#[test]
fn highlights_known_languages() {
    let h = Highlighter::new();
    let html = h.highlight("rs", "fn main() {}");
    assert!(html.starts_with("<pre"));
    assert!(html.contains("style="));
    assert_ne!(html, plain_code("rust", "fn main() {}"));
}
