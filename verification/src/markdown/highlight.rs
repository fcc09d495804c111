//! Code highlighting with `syntect` and the reader's colour theme.
use vstd::prelude::*;
use vstd::string::*;
use crate::escape::{encode_safe, escape_safe};
use crate::text::{ascii_lower_seq, push_str, str_eq, to_ascii_lowercase};
use crate::markdown::syntaxes::{
    pre_open,
    bundled_syntax_by_extension, bundled_syntax_by_token, plain_text_syntax, syntax_by_extension,
    syntax_by_token, syntect_highlight, syntect_html, BundledSyntaxes,
};

verus! {

/// An opaque RGBA colour.
#[derive(Clone, Copy, Debug, PartialEq, Eq, Structural)]
pub struct Rgba {
    pub r: u8,
    pub g: u8,
    pub b: u8,
    pub a: u8,
}

/// The font styles that the theme uses.
#[derive(Clone, Copy, Debug, PartialEq, Eq, Structural)]
pub enum FontStyleKind {
    Italic,
    Underline,
}

/// One styling rule: a scope selector, its foreground colour and font style.
pub struct ThemeRule {
    pub scope: String,
    pub foreground: Rgba,
    pub font_style: Option<FontStyleKind>,
}

impl View for ThemeRule {
    type V = (Seq<char>, Rgba, Option<FontStyleKind>);

    open spec fn view(&self) -> (Seq<char>, Rgba, Option<FontStyleKind>) {
        (self.scope@, self.foreground, self.font_style)
    }
}

/// The colour theme of the reader, as plain values.
pub struct ReaderTheme {
    pub name: String,
    pub author: String,
    pub foreground: Rgba,
    pub background: Rgba,
    pub accent: Rgba,
    pub selection: Rgba,
    pub scopes: Vec<ThemeRule>,
}

/// A reader theme as plain values: name, author, foreground, background,
/// accent and selection colours, and its styling rules.
pub type ReaderThemeView = (Seq<char>, Seq<char>, Rgba, Rgba, Rgba, Rgba, Seq<(Seq<char>, Rgba, Option<FontStyleKind>)>);

impl View for ReaderTheme {
    type V = ReaderThemeView;

    open spec fn view(&self) -> ReaderThemeView {
        (
            self.name@,
            self.author@,
            self.foreground,
            self.background,
            self.accent,
            self.selection,
            rule_views(self.scopes@),
        )
    }
}

/// The opaque colour for a `0xRRGGBB` value.
pub open spec fn rgba_of(rgb: u32) -> Rgba {
    Rgba {
        r: ((rgb >> 16u32) & 0xffu32) as u8,
        g: ((rgb >> 8u32) & 0xffu32) as u8,
        b: (rgb & 0xffu32) as u8,
        a: 0xff,
    }
}

/// The styling rules of the reader's Catppuccin Mocha theme.
pub open spec fn mocha_scopes() -> Seq<(Seq<char>, Rgba, Option<FontStyleKind>)> {
    seq![
        ("comment"@, rgba_of(0x6c7086), Some(FontStyleKind::Italic)),
        ("string"@, rgba_of(0xa6e3a1), None),
        ("constant.numeric"@, rgba_of(0xfab387), None),
        ("constant.language"@, rgba_of(0xfab387), None),
        ("constant.character"@, rgba_of(0xfab387), None),
        ("keyword"@, rgba_of(0xcba6f7), None),
        ("storage"@, rgba_of(0xcba6f7), None),
        ("operator"@, rgba_of(0x89dceb), None),
        ("entity.name.function"@, rgba_of(0x89b4fa), None),
        ("support.function"@, rgba_of(0x89b4fa), None),
        ("variable.function"@, rgba_of(0x89b4fa), None),
        ("entity.name.type"@, rgba_of(0xf9e2af), None),
        ("support.type"@, rgba_of(0xf9e2af), None),
        ("variable"@, rgba_of(0xcdd6f4), None),
        ("variable.parameter"@, rgba_of(0xf2cdcd), None),
        ("punctuation"@, rgba_of(0x9399b2), None),
        ("invalid"@, rgba_of(0xf38ba8), Some(FontStyleKind::Underline)),
    ]
}

/// The views of a list of styling rules.
pub open spec fn rule_views(rules: Seq<ThemeRule>) -> Seq<(Seq<char>, Rgba, Option<FontStyleKind>)> {
    rules.map_values(|t: ThemeRule| t@)
}

/// The reader's Catppuccin Mocha theme as plain values.
pub open spec fn mocha_view() -> ReaderThemeView {
    (
        "Catppuccin Mocha Reader"@,
        "Markdown Reader"@,
        rgba_of(0xcdd6f4),
        rgba_of(0x181825),
        rgba_of(0x89b4fa),
        rgba_of(0x45475a),
        mocha_scopes(),
    )
}

/// The opaque colour for a `0xRRGGBB` value.
pub fn color(rgb: u32) -> (c: Rgba)
    ensures
        c == rgba_of(rgb),
        c.r == rgb / 0x10000 % 0x100,
        c.g == rgb / 0x100 % 0x100,
        c.b == rgb % 0x100,
        c.a == 0xff,
{
    let c = Rgba {
        r: ((rgb >> 16u32) & 0xffu32) as u8,
        g: ((rgb >> 8u32) & 0xffu32) as u8,
        b: (rgb & 0xffu32) as u8,
        a: 0xff,
    };
    assert(((rgb >> 16u32) & 0xffu32) == rgb / 0x10000 % 0x100) by (bit_vector);
    assert(((rgb >> 8u32) & 0xffu32) == rgb / 0x100 % 0x100) by (bit_vector);
    assert((rgb & 0xffu32) == rgb % 0x100) by (bit_vector);
    c
}

/// A styling rule for one scope.
pub fn item(scope: &str, foreground: u32, font_style: Option<FontStyleKind>) -> (t: ThemeRule)
    ensures
        t@ == (scope@, rgba_of(foreground), font_style),
{
    ThemeRule { scope: String::from_str(scope), foreground: color(foreground), font_style }
}

/// The reader's theme: Catppuccin Mocha colours on a dark background.
pub fn mocha_theme() -> (t: ReaderTheme)
    ensures
        t.name@ == "Catppuccin Mocha Reader"@,
        t.author@ == "Markdown Reader"@,
        t.foreground == rgba_of(0xcdd6f4),
        t.background == rgba_of(0x181825),
        t.accent == rgba_of(0x89b4fa),
        t.selection == rgba_of(0x45475a),
        rule_views(t.scopes@) == mocha_scopes(),
{
    let scopes = vec![
        item("comment", 0x6c7086, Some(FontStyleKind::Italic)),
        item("string", 0xa6e3a1, None),
        item("constant.numeric", 0xfab387, None),
        item("constant.language", 0xfab387, None),
        item("constant.character", 0xfab387, None),
        item("keyword", 0xcba6f7, None),
        item("storage", 0xcba6f7, None),
        item("operator", 0x89dceb, None),
        item("entity.name.function", 0x89b4fa, None),
        item("support.function", 0x89b4fa, None),
        item("variable.function", 0x89b4fa, None),
        item("entity.name.type", 0xf9e2af, None),
        item("support.type", 0xf9e2af, None),
        item("variable", 0xcdd6f4, None),
        item("variable.parameter", 0xf2cdcd, None),
        item("punctuation", 0x9399b2, None),
        item("invalid", 0xf38ba8, Some(FontStyleKind::Underline)),
    ];
    assert(rule_views(scopes@) =~= mocha_scopes());
    ReaderTheme {
        name: String::from_str("Catppuccin Mocha Reader"),
        author: String::from_str("Markdown Reader"),
        foreground: color(0xcdd6f4),
        background: color(0x181825),
        accent: color(0x89b4fa),
        selection: color(0x45475a),
        scopes,
    }
}

/// The name of the bundled syntax that highlighting uses for a language
/// token: the one found by token, else by extension, else plain text.
pub open spec fn chosen_syntax(token: Seq<char>) -> Seq<char> {
    match bundled_syntax_by_token(token) {
        Some(name) => name,
        None => match bundled_syntax_by_extension(token) {
            Some(name) => name,
            None => "Plain Text"@,
        },
    }
}

/// The name of the bundled syntax for a language token.
pub fn choose_syntax(syntaxes: &BundledSyntaxes, token: &str) -> (r: String)
    ensures
        r@ == chosen_syntax(token@),
{
    match syntax_by_token(syntaxes, token) {
        Some(name) => name,
        None => match syntax_by_extension(syntaxes, token) {
            Some(name) => name,
            None => plain_text_syntax(syntaxes),
        },
    }
}

/// The language name that highlighting looks up: common short names are
/// expanded (in any ASCII case); any other name is kept as given.
pub open spec fn normalized_language(language: Seq<char>) -> Seq<char> {
    let l = ascii_lower_seq(language);
    if l == "js"@ || l == "jsx"@ {
        "javascript"@
    } else if l == "ts"@ || l == "tsx"@ {
        "typescript"@
    } else if l == "sh"@ || l == "shell"@ || l == "zsh"@ {
        "bash"@
    } else if l == "ps"@ || l == "ps1"@ {
        "powershell"@
    } else if l == "py"@ {
        "python"@
    } else if l == "rs"@ {
        "rust"@
    } else if l == "yml"@ {
        "yaml"@
    } else if l == "md"@ {
        "markdown"@
    } else if l == "jsonc"@ {
        "json"@
    } else {
        language
    }
}

/// The short language names that highlighting expands, each with its
/// language.
pub open spec fn language_aliases() -> Seq<(Seq<char>, Seq<char>)> {
    seq![
        ("js"@, "javascript"@),
        ("jsx"@, "javascript"@),
        ("ts"@, "typescript"@),
        ("tsx"@, "typescript"@),
        ("sh"@, "bash"@),
        ("shell"@, "bash"@),
        ("zsh"@, "bash"@),
        ("ps"@, "powershell"@),
        ("ps1"@, "powershell"@),
        ("py"@, "python"@),
        ("rs"@, "rust"@),
        ("yml"@, "yaml"@),
        ("md"@, "markdown"@),
        ("jsonc"@, "json"@),
    ]
}

/// A language name that is a short name in any ASCII case expands to that
/// short name's own language: `py` and `PY` to `python`, `js` to
/// `javascript`, `rs` to `rust`, and so on.
#[verifier::rlimit(50)]
pub proof fn lemma_language_alias(language: Seq<char>, k: int)
    requires
        0 <= k < language_aliases().len(),
        ascii_lower_seq(language) == language_aliases()[k].0,
    ensures
        normalized_language(language) == language_aliases()[k].1,
{
    reveal_strlit("bash");
    reveal_strlit("javascript");
    reveal_strlit("js");
    reveal_strlit("json");
    reveal_strlit("jsonc");
    reveal_strlit("jsx");
    reveal_strlit("markdown");
    reveal_strlit("md");
    reveal_strlit("powershell");
    reveal_strlit("ps");
    reveal_strlit("ps1");
    reveal_strlit("py");
    reveal_strlit("python");
    reveal_strlit("rs");
    reveal_strlit("rust");
    reveal_strlit("sh");
    reveal_strlit("shell");
    reveal_strlit("ts");
    reveal_strlit("tsx");
    reveal_strlit("typescript");
    reveal_strlit("yaml");
    reveal_strlit("yml");
    reveal_strlit("zsh");
    if k == 0 {
        assert(language_aliases()[k] == ("js"@, "javascript"@));
        assert("js"@.len() == 2);
        assert("js"@[0] == 'j');
        assert("js"@[1] == 's');
    } else if k == 1 {
        assert(language_aliases()[k] == ("jsx"@, "javascript"@));
        assert("jsx"@.len() == 3);
        assert("jsx"@[0] == 'j');
        assert("jsx"@[1] == 's');
        assert("jsx"@[2] == 'x');
        assert("js"@.len() == 2);
    } else if k == 2 {
        assert(language_aliases()[k] == ("ts"@, "typescript"@));
        assert("ts"@.len() == 2);
        assert("ts"@[0] == 't');
        assert("ts"@[1] == 's');
        assert("js"@[0] == 'j');
        assert("js"@ != "ts"@);
        assert("jsx"@.len() == 3);
    } else if k == 3 {
        assert(language_aliases()[k] == ("tsx"@, "typescript"@));
        assert("tsx"@.len() == 3);
        assert("tsx"@[0] == 't');
        assert("tsx"@[1] == 's');
        assert("tsx"@[2] == 'x');
        assert("js"@.len() == 2);
        assert("jsx"@[0] == 'j');
        assert("jsx"@ != "tsx"@);
        assert("ts"@.len() == 2);
    } else if k == 4 {
        assert(language_aliases()[k] == ("sh"@, "bash"@));
        assert("sh"@.len() == 2);
        assert("sh"@[0] == 's');
        assert("sh"@[1] == 'h');
        assert("js"@[0] == 'j');
        assert("js"@ != "sh"@);
        assert("jsx"@.len() == 3);
        assert("ts"@[0] == 't');
        assert("ts"@ != "sh"@);
        assert("tsx"@.len() == 3);
    } else if k == 5 {
        assert(language_aliases()[k] == ("shell"@, "bash"@));
        assert("shell"@.len() == 5);
        assert("shell"@[0] == 's');
        assert("shell"@[1] == 'h');
        assert("shell"@[2] == 'e');
        assert("shell"@[3] == 'l');
        assert("shell"@[4] == 'l');
        assert("js"@.len() == 2);
        assert("jsx"@.len() == 3);
        assert("ts"@.len() == 2);
        assert("tsx"@.len() == 3);
        assert("sh"@.len() == 2);
    } else if k == 6 {
        assert(language_aliases()[k] == ("zsh"@, "bash"@));
        assert("zsh"@.len() == 3);
        assert("zsh"@[0] == 'z');
        assert("zsh"@[1] == 's');
        assert("zsh"@[2] == 'h');
        assert("js"@.len() == 2);
        assert("jsx"@[0] == 'j');
        assert("jsx"@ != "zsh"@);
        assert("ts"@.len() == 2);
        assert("tsx"@[0] == 't');
        assert("tsx"@ != "zsh"@);
        assert("sh"@.len() == 2);
        assert("shell"@.len() == 5);
    } else if k == 7 {
        assert(language_aliases()[k] == ("ps"@, "powershell"@));
        assert("ps"@.len() == 2);
        assert("ps"@[0] == 'p');
        assert("ps"@[1] == 's');
        assert("js"@[0] == 'j');
        assert("js"@ != "ps"@);
        assert("jsx"@.len() == 3);
        assert("ts"@[0] == 't');
        assert("ts"@ != "ps"@);
        assert("tsx"@.len() == 3);
        assert("sh"@[0] == 's');
        assert("sh"@ != "ps"@);
        assert("shell"@.len() == 5);
        assert("zsh"@.len() == 3);
    } else if k == 8 {
        assert(language_aliases()[k] == ("ps1"@, "powershell"@));
        assert("ps1"@.len() == 3);
        assert("ps1"@[0] == 'p');
        assert("ps1"@[1] == 's');
        assert("ps1"@[2] == '1');
        assert("js"@.len() == 2);
        assert("jsx"@[0] == 'j');
        assert("jsx"@ != "ps1"@);
        assert("ts"@.len() == 2);
        assert("tsx"@[0] == 't');
        assert("tsx"@ != "ps1"@);
        assert("sh"@.len() == 2);
        assert("shell"@.len() == 5);
        assert("zsh"@[0] == 'z');
        assert("zsh"@ != "ps1"@);
        assert("ps"@.len() == 2);
    } else if k == 9 {
        assert(language_aliases()[k] == ("py"@, "python"@));
        assert("py"@.len() == 2);
        assert("py"@[0] == 'p');
        assert("py"@[1] == 'y');
        assert("js"@[0] == 'j');
        assert("js"@ != "py"@);
        assert("jsx"@.len() == 3);
        assert("ts"@[0] == 't');
        assert("ts"@ != "py"@);
        assert("tsx"@.len() == 3);
        assert("sh"@[0] == 's');
        assert("sh"@ != "py"@);
        assert("shell"@.len() == 5);
        assert("zsh"@.len() == 3);
        assert("ps"@[1] == 's');
        assert("ps"@ != "py"@);
        assert("ps1"@.len() == 3);
    } else if k == 10 {
        assert(language_aliases()[k] == ("rs"@, "rust"@));
        assert("rs"@.len() == 2);
        assert("rs"@[0] == 'r');
        assert("rs"@[1] == 's');
        assert("js"@[0] == 'j');
        assert("js"@ != "rs"@);
        assert("jsx"@.len() == 3);
        assert("ts"@[0] == 't');
        assert("ts"@ != "rs"@);
        assert("tsx"@.len() == 3);
        assert("sh"@[0] == 's');
        assert("sh"@ != "rs"@);
        assert("shell"@.len() == 5);
        assert("zsh"@.len() == 3);
        assert("ps"@[0] == 'p');
        assert("ps"@ != "rs"@);
        assert("ps1"@.len() == 3);
        assert("py"@[0] == 'p');
        assert("py"@ != "rs"@);
    } else if k == 11 {
        assert(language_aliases()[k] == ("yml"@, "yaml"@));
        assert("yml"@.len() == 3);
        assert("yml"@[0] == 'y');
        assert("yml"@[1] == 'm');
        assert("yml"@[2] == 'l');
        assert("js"@.len() == 2);
        assert("jsx"@[0] == 'j');
        assert("jsx"@ != "yml"@);
        assert("ts"@.len() == 2);
        assert("tsx"@[0] == 't');
        assert("tsx"@ != "yml"@);
        assert("sh"@.len() == 2);
        assert("shell"@.len() == 5);
        assert("zsh"@[0] == 'z');
        assert("zsh"@ != "yml"@);
        assert("ps"@.len() == 2);
        assert("ps1"@[0] == 'p');
        assert("ps1"@ != "yml"@);
        assert("py"@.len() == 2);
        assert("rs"@.len() == 2);
    } else if k == 12 {
        assert(language_aliases()[k] == ("md"@, "markdown"@));
        assert("md"@.len() == 2);
        assert("md"@[0] == 'm');
        assert("md"@[1] == 'd');
        assert("js"@[0] == 'j');
        assert("js"@ != "md"@);
        assert("jsx"@.len() == 3);
        assert("ts"@[0] == 't');
        assert("ts"@ != "md"@);
        assert("tsx"@.len() == 3);
        assert("sh"@[0] == 's');
        assert("sh"@ != "md"@);
        assert("shell"@.len() == 5);
        assert("zsh"@.len() == 3);
        assert("ps"@[0] == 'p');
        assert("ps"@ != "md"@);
        assert("ps1"@.len() == 3);
        assert("py"@[0] == 'p');
        assert("py"@ != "md"@);
        assert("rs"@[0] == 'r');
        assert("rs"@ != "md"@);
        assert("yml"@.len() == 3);
    } else if k == 13 {
        assert(language_aliases()[k] == ("jsonc"@, "json"@));
        assert("jsonc"@.len() == 5);
        assert("jsonc"@[0] == 'j');
        assert("jsonc"@[1] == 's');
        assert("jsonc"@[2] == 'o');
        assert("jsonc"@[3] == 'n');
        assert("jsonc"@[4] == 'c');
        assert("js"@.len() == 2);
        assert("jsx"@.len() == 3);
        assert("ts"@.len() == 2);
        assert("tsx"@.len() == 3);
        assert("sh"@.len() == 2);
        assert("shell"@[0] == 's');
        assert("shell"@ != "jsonc"@);
        assert("zsh"@.len() == 3);
        assert("ps"@.len() == 2);
        assert("ps1"@.len() == 3);
        assert("py"@.len() == 2);
        assert("rs"@.len() == 2);
        assert("yml"@.len() == 3);
        assert("md"@.len() == 2);
    }
}

/// Whether a lowercased language name is one of the short names that are
/// expanded.
pub open spec fn is_language_alias(l: Seq<char>) -> bool {
    l == "js"@ || l == "jsx"@ || l == "ts"@ || l == "tsx"@ || l == "sh"@ || l == "shell"@ || l == "zsh"@ || l == "ps"@ || l == "ps1"@ || l == "py"@ || l == "rs"@ || l == "yml"@ || l == "md"@ || l == "jsonc"@
}

/// Expanding language names is idempotent, and a name that is no short
/// name (in any ASCII case) is kept exactly as given.
pub proof fn lemma_normalize_language(language: Seq<char>)
    ensures
        normalized_language(normalized_language(language)) == normalized_language(language),
        !is_language_alias(ascii_lower_seq(language)) ==> normalized_language(language) == language,
{
    reveal_strlit("js");
    reveal_strlit("jsx");
    reveal_strlit("ts");
    reveal_strlit("tsx");
    reveal_strlit("sh");
    reveal_strlit("shell");
    reveal_strlit("zsh");
    reveal_strlit("ps");
    reveal_strlit("ps1");
    reveal_strlit("py");
    reveal_strlit("rs");
    reveal_strlit("yml");
    reveal_strlit("md");
    reveal_strlit("jsonc");
    reveal_strlit("javascript");
    reveal_strlit("typescript");
    reveal_strlit("bash");
    reveal_strlit("powershell");
    reveal_strlit("python");
    reveal_strlit("rust");
    reveal_strlit("yaml");
    reveal_strlit("markdown");
    reveal_strlit("json");
    let r = normalized_language(language);
    if is_language_alias(ascii_lower_seq(language)) {
        let l = ascii_lower_seq(r);
        assert(l.len() == r.len());
        assert(r.len() == 4 || r.len() == 6 || r.len() == 8 || r.len() == 10);
        assert(!is_language_alias(l));
    }
}

/// A code block without highlighting.
pub open spec fn plain_code_html(language: Seq<char>, code: Seq<char>) -> Seq<char> {
    "<pre><code class=\"language-"@ + escape_safe(language) + "\">"@ + escape_safe(code)
        + "</code></pre>"@
}

/// The HTML for a highlighted code block with the given theme: `syntect`'s
/// output for the chosen syntax of the normalised language, or the plain
/// block when highlighting fails.
pub open spec fn highlighted_code(theme: ReaderThemeView, language: Seq<char>, code: Seq<char>) -> Seq<char> {
    let token = normalized_language(language);
    match syntect_html(chosen_syntax(token), theme, code) {
        Some(h) => h,
        None => plain_code_html(token, code),
    }
}

/// Expands common short language names.
pub fn normalize_language(language: &str) -> (r: String)
    ensures
        r@ == normalized_language(language@),
{
    let lower = to_ascii_lowercase(language);
    let l = lower.as_str();
    if str_eq(l, "js") || str_eq(l, "jsx") {
        String::from_str("javascript")
    } else if str_eq(l, "ts") || str_eq(l, "tsx") {
        String::from_str("typescript")
    } else if str_eq(l, "sh") || str_eq(l, "shell") || str_eq(l, "zsh") {
        String::from_str("bash")
    } else if str_eq(l, "ps") || str_eq(l, "ps1") {
        String::from_str("powershell")
    } else if str_eq(l, "py") {
        String::from_str("python")
    } else if str_eq(l, "rs") {
        String::from_str("rust")
    } else if str_eq(l, "yml") {
        String::from_str("yaml")
    } else if str_eq(l, "md") {
        String::from_str("markdown")
    } else if str_eq(l, "jsonc") {
        String::from_str("json")
    } else {
        String::from_str(language)
    }
}

/// A code block without highlighting, language and code escaped.
pub fn plain_code(language: &str, code: &str) -> (r: String)
    ensures
        r@ == plain_code_html(language@, code@),
{
    let lang = encode_safe(language);
    let body = encode_safe(code);
    let mut out = String::new();
    push_str(&mut out, "<pre><code class=\"language-");
    push_str(&mut out, lang.as_str());
    push_str(&mut out, "\">");
    push_str(&mut out, body.as_str());
    push_str(&mut out, "</code></pre>");
    out
}

/// Highlights code blocks with the bundled syntaxes and the reader's theme.
pub struct Highlighter {
    syntaxes: BundledSyntaxes,
    theme: ReaderTheme,
}

impl Highlighter {
    /// The theme that code is highlighted with.
    pub closed spec fn theme_view(&self) -> ReaderThemeView {
        self.theme@
    }

    /// Loads the bundled syntaxes and takes the reader's Catppuccin Mocha
    /// theme.
    pub fn new() -> (h: Highlighter)
        ensures
            h.theme_view() == mocha_view(),
    {
        let syntaxes = BundledSyntaxes::load();
        let theme = mocha_theme();
        Highlighter { syntaxes, theme }
    }

    /// Highlights `code` as `language`: `syntect`'s output for the chosen
    /// syntax and the highlighter's theme, else the plain block. Either way
    /// the result is a `pre` element.
    pub fn highlight(&self, language: &str, code: &str) -> (r: String)
        ensures
            r@ == highlighted_code(self.theme_view(), language@, code@),
            "<pre"@.is_prefix_of(r@),
    {
        let language = normalize_language(language);
        let syntax = choose_syntax(&self.syntaxes, language.as_str());
        match syntect_highlight(&self.syntaxes, syntax.as_str(), &self.theme, code) {
            Some(h) => {
                proof {
                    reveal_strlit("<pre");
                    reveal_strlit("<pre style=\"background-color:#");
                    assert(pre_open(self.theme.background).subrange(0, 4) =~= "<pre"@);
                }
                h
            },
            None => {
                let r = plain_code(language.as_str(), code);
                proof {
                    reveal_strlit("<pre");
                    reveal_strlit("<pre><code class=\"language-");
                    assert(r@.subrange(0, 4) =~= "<pre"@);
                }
                r
            },
        }
    }
}

} // verus!
