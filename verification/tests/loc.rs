use statica::loc::{find_pos, offset_to_line_col, snippet, Diagnostic};

#[test]
fn lines_and_cols() {
    let src = "a\nbc${x}\nd";
    let (_, line, col) = find_pos(src, "${x}").unwrap();
    assert_eq!((line, col), (2, 3));
    let snip = snippet(src, line, col, 4);
    assert!(snip.contains("2 | bc${x}"));
    assert!(snip.contains("^^^"));
}

#[test]
fn diagnostic_display() {
    let d = Diagnostic::at("ui/x.html", "<a href=\"${href}\">", &["${href}"], "not bound");
    let s = d.to_display_string();
    assert!(s.starts_with("ui/x.html:1:"));
    assert!(s.contains("not bound"));
    assert!(s.contains("${href}"));
}

#[test]
fn byte_offsets_count_utf8_bytes() {
    let src = "é\nx";
    assert_eq!(find_pos(src, "x"), Some((3, 2, 1)));
    assert_eq!(offset_to_line_col(src, 2), (1, 2));
    assert_eq!(offset_to_line_col(src, 1), (1, 2));
}

#[test]
fn snippet_exact_layout() {
    let src = "a\nbc${x}\nd";
    assert_eq!(snippet(src, 2, 3, 4), "  |\n2 | bc${x}\n  |   ^^^^");
}

#[test]
fn at_file_has_no_snippet() {
    let d = Diagnostic::at_file("<config>", "bad");
    assert_eq!(d.to_display_string(), "<config>:1:1: bad");
}
