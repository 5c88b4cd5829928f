use statica::scope::css::scope_style_text;

#[test]
fn scopes_simple() {
    let out = scope_style_text(".card { color: red }", "x");
    assert!(out.contains(".card[data-s=\"x\"]"));
}

#[test]
fn scopes_inside_media() {
    let out = scope_style_text("@media (min-width: 40rem) { .card { color: red } }", "x");
    assert!(out.contains("@media"));
    assert!(out.contains(".card[data-s=\"x\"]"), "{out}");
    assert!(!out.contains("@media[data-s"), "{out}");
}

#[test]
fn leaves_keyframes() {
    let out = scope_style_text(
        "@keyframes spin { from { opacity: 0 } to { opacity: 1 } }",
        "x",
    );
    assert!(out.contains("@keyframes spin"));
    assert!(!out.contains("from[data-s"), "{out}");
}

#[test]
fn scopes_selector_lists_exactly() {
    assert_eq!(
        scope_style_text("a, .b,, c{x:y}", "s1"),
        "a[data-s=\"s1\"], .b[data-s=\"s1\"], c[data-s=\"s1\"] {x:y}"
    );
    assert_eq!(
        scope_style_text(".a[data-s=\"s1\"] {x}", "s1"),
        ".a[data-s=\"s1\"] {x}"
    );
}

#[test]
fn copies_unterminated_rules() {
    assert_eq!(scope_style_text("  .a { color: red", "x"), "  .a { color: red");
    assert_eq!(scope_style_text("", "x"), "");
}
