use md_reader::markdown::math::{read_atom, read_command, read_group, render, render_fragment, symbol_for};

#[test]
fn renders_inline_power() {
    assert_eq!(
        render("\\alpha^2", false),
        "<span class=\"math-render math-inline\">α<span class=\"msup\">2</span></span>"
    );
}

#[test]
fn renders_display_fraction_trimmed() {
    assert_eq!(
        render("  \\frac{1}{2} ", true),
        "<span class=\"math-render math-display\"><span class=\"mfrac\"><span>1</span><span>2</span></span></span>"
    );
}

#[test]
fn renders_square_root_and_subscript() {
    assert_eq!(render_fragment("\\sqrt{x_{i}}"), "<span class=\"msqrt\"><span>x<span class=\"msub\">i</span></span></span>");
}

#[test]
fn fraction_without_second_group_keeps_command() {
    assert_eq!(render_fragment("\\frac{1}"), "\\frac1");
    assert_eq!(render_fragment("\\sqrt x"), "\\sqrt x");
}

#[test]
fn unknown_command_keeps_its_name() {
    assert_eq!(render_fragment("\\foo + \\le \\leq"), "foo + ≤ ≤");
}

#[test]
fn escapes_html_characters() {
    assert_eq!(render_fragment("a<b & \"c\" 'd'"), "a&lt;b &amp; &quot;c&quot; &#x27;d&#x27;");
}

#[test]
fn lone_script_marker_is_kept() {
    assert_eq!(render_fragment("x^"), "x^");
    assert_eq!(render_fragment("x_{y"), "x_y");
}

#[test]
fn plain_text_is_unchanged() {
    assert_eq!(render_fragment("a + b = c"), "a + b = c");
}

#[test]
fn nested_fraction() {
    assert_eq!(
        render_fragment("\\frac{\\pi}{x^{2}}"),
        "<span class=\"mfrac\"><span>π</span><span>x<span class=\"msup\">2</span></span></span>"
    );
}

#[test]
fn symbol_table() {
    assert_eq!(symbol_for("omega"), Some("ω"));
    assert_eq!(symbol_for("Rightarrow"), Some("⇒"));
    assert_eq!(symbol_for("nope"), None);
}

#[test]
fn reads_commands_groups_and_atoms() {
    let chars: Vec<char> = "ab1{x{y}}z".chars().collect();
    assert_eq!(read_command(&chars, 0), ("ab".to_string(), 2));
    assert_eq!(read_command(&chars, 2), ("1".to_string(), 3));
    assert_eq!(read_command(&chars, chars.len()), (String::new(), chars.len()));
    assert_eq!(read_group(&chars, 3), Some(("x{y}".to_string(), 9)));
    assert_eq!(read_group(&chars, 0), None);
    assert_eq!(read_atom(&chars, 9), Some(("z".to_string(), 10)));
    assert_eq!(read_atom(&chars, 10), None);
    let open: Vec<char> = "{a".chars().collect();
    assert_eq!(read_group(&open, 0), None);
}
