//! The syntax definitions bundled with `syntect`, the lookups on them, and
//! highlighting with a reader theme.
use vstd::prelude::*;
use syntect::highlighting::{Theme, ThemeItem};
use syntect::parsing::SyntaxSet;
use crate::markdown::highlight::{FontStyleKind, ReaderTheme, ReaderThemeView, Rgba, ThemeRule};

verus! {

#[verifier::external_type_specification]
#[verifier::external_body]
pub struct ExSyntaxSet(SyntaxSet);

#[verifier::external_type_specification]
#[verifier::external_body]
pub struct ExTheme(Theme);

#[verifier::external_type_specification]
#[verifier::external_body]
pub struct ExThemeItem(ThemeItem);

/// The syntax definitions bundled with `syntect`. The set is private and
/// only `load` fills it, so every value of this type holds exactly the
/// bundled definitions.
pub struct BundledSyntaxes {
    set: SyntaxSet,
}

impl BundledSyntaxes {
    /// `SyntaxSet::load_defaults_newlines`: the syntax definitions bundled
    /// with `syntect`, for text with line endings. Nothing is stated of it.
    #[verifier::external_body]
    pub(crate) fn load() -> BundledSyntaxes {
        BundledSyntaxes { set: SyntaxSet::load_defaults_newlines() }
    }
}

/// The name of the syntax that `find_syntax_by_token` finds for `token` in
/// the bundled set (by file extension, else by name, ignoring ASCII case).
pub uninterp spec fn bundled_syntax_by_token(token: Seq<char>) -> Option<Seq<char>>;

/// The name of the syntax that `find_syntax_by_extension` finds for
/// `extension` in the bundled set (ignoring ASCII case).
pub uninterp spec fn bundled_syntax_by_extension(extension: Seq<char>) -> Option<Seq<char>>;

/// `SyntaxSet::find_syntax_by_token` on the bundled set, giving the found
/// syntax's name. The result is named by `bundled_syntax_by_token`.
#[verifier::external_body]
pub(crate) fn syntax_by_token(syntaxes: &BundledSyntaxes, token: &str) -> (r: Option<String>)
    ensures
        match r {
            Some(name) => bundled_syntax_by_token(token@) == Some(name@),
            None => bundled_syntax_by_token(token@) is None,
        },
{
    syntaxes.set.find_syntax_by_token(token).map(|s| s.name.clone())
}

/// `SyntaxSet::find_syntax_by_extension` on the bundled set, giving the
/// found syntax's name. The result is named by `bundled_syntax_by_extension`.
#[verifier::external_body]
pub(crate) fn syntax_by_extension(syntaxes: &BundledSyntaxes, extension: &str) -> (r: Option<String>)
    ensures
        match r {
            Some(name) => bundled_syntax_by_extension(extension@) == Some(name@),
            None => bundled_syntax_by_extension(extension@) is None,
        },
{
    syntaxes.set.find_syntax_by_extension(extension).map(|s| s.name.clone())
}

/// `SyntaxSet::find_syntax_plain_text`: the syntax named `Plain Text`
/// (the bundled set has one), giving its name.
#[verifier::external_body]
pub(crate) fn plain_text_syntax(syntaxes: &BundledSyntaxes) -> (r: String)
    ensures
        r@ == "Plain Text"@,
{
    syntaxes.set.find_syntax_plain_text().name.clone()
}

/// The opening tag that `syntect` writes before highlighted code: a `pre`
/// element with the theme's background colour in lower-case hex.
pub open spec fn pre_open(background: Rgba) -> Seq<char> {
    "<pre style=\"background-color:#"@ + hex_byte(background.r) + hex_byte(background.g)
        + hex_byte(background.b) + ";\">\n"@
}

/// A lower-case hex digit.
pub open spec fn hex_digit(d: u8) -> char {
    if d < 10 {
        (48 + d) as char
    } else {
        (87 + d) as char
    }
}

/// A byte as two lower-case hex digits.
pub open spec fn hex_byte(b: u8) -> Seq<char> {
    seq![hex_digit(b / 16), hex_digit(b % 16)]
}

/// What `syntect` renders for `code` with the bundled syntax of this name
/// (`find_syntax_by_name`) and a theme made from the reader theme `theme`;
/// `None` when the name is not found or highlighting fails.
pub uninterp spec fn syntect_html(syntax: Seq<char>, theme: ReaderThemeView, code: Seq<char>) -> Option<Seq<char>>;

/// A `syntect` theme item for a rule: `ScopeSelectors::from_str` on the
/// scope (a selector that does not parse gives the empty selector list),
/// the foreground colour and the font style.
#[verifier::external_body]
fn syntect_theme_item(rule: &ThemeRule) -> ThemeItem {
    let c = rule.foreground;
    ThemeItem {
        scope: std::str::FromStr::from_str(rule.scope.as_str()).unwrap_or_default(),
        style: syntect::highlighting::StyleModifier {
            foreground: Some(syntect::highlighting::Color { r: c.r, g: c.g, b: c.b, a: c.a }),
            background: None,
            font_style: rule.font_style.map(|s| match s {
                FontStyleKind::Italic => syntect::highlighting::FontStyle::ITALIC,
                FontStyleKind::Underline => syntect::highlighting::FontStyle::UNDERLINE,
            }),
        },
    }
}

/// A `syntect::highlighting::Theme` with the reader theme's name, author,
/// the four colours as its settings (the others default) and one item per
/// rule, in order.
#[verifier::external_body]
fn syntect_theme(theme: &ReaderTheme) -> Theme {
    let c = |x: Rgba| syntect::highlighting::Color { r: x.r, g: x.g, b: x.b, a: x.a };
    Theme {
        name: Some(theme.name.clone()),
        author: Some(theme.author.clone()),
        settings: syntect::highlighting::ThemeSettings {
            foreground: Some(c(theme.foreground)),
            background: Some(c(theme.background)),
            accent: Some(c(theme.accent)),
            selection: Some(c(theme.selection)),
            ..Default::default()
        },
        scopes: theme.scopes.iter().map(syntect_theme_item).collect(),
    }
}

/// `find_syntax_by_name` on the bundled set, then
/// `highlighted_html_for_string` with the theme made from `theme`. The
/// result is named by `syntect_html` over the syntax name, the theme and
/// the code. What it returns opens with `pre_open` of the theme's
/// background (its theme always has that background set) and ends with
/// `</pre>` and a line break.
#[verifier::external_body]
pub(crate) fn syntect_highlight(
    syntaxes: &BundledSyntaxes,
    syntax: &str,
    theme: &ReaderTheme,
    code: &str,
) -> (r: Option<String>)
    ensures
        match r {
            Some(h) => {
                &&& syntect_html(syntax@, theme@, code@) == Some(h@)
                &&& pre_open(theme.background).is_prefix_of(h@)
                &&& "</pre>\n"@.is_suffix_of(h@)
            },
            None => syntect_html(syntax@, theme@, code@) is None,
        },
{
    let s = syntaxes.set.find_syntax_by_name(syntax)?;
    syntect::html::highlighted_html_for_string(code, &syntaxes.set, s, &syntect_theme(theme)).ok()
}

} // verus!
