use statica::parse::pre::preprocess;

#[test]
fn rewrites_slot_inside_select() {
    let raw = r#"<select name="c"><slot id="a" data-each="items"></slot></select>"#;
    let out = preprocess(raw).unwrap();
    assert!(out.contains(r#"type="statica/slot""#));
    assert!(out.contains(r#"id="a""#));
    assert!(!out.contains("<slot"));
}

#[test]
fn rewrites_slot_inside_optgroup() {
    let raw =
        r#"<select><optgroup label="G"><slot id="b" data-each="items"></slot></optgroup></select>"#;
    let out = preprocess(raw).unwrap();
    assert!(out.contains(r#"type="statica/slot""#));
    assert!(out.contains(r#"id="b""#));
}

#[test]
fn leaves_slot_outside_select() {
    let raw = r#"<div><slot id="x"></slot></div>"#;
    let out = preprocess(raw).unwrap();
    assert_eq!(out, raw);
}

#[test]
fn unclosed_select_errors() {
    let raw = r#"<slot></slot><select><option>a</option>"#;
    assert!(preprocess(raw).is_err());
}

#[test]
fn slot_rewrite_keeps_attributes_without_the_tag_end() {
    let out = preprocess(r#"<select name="c"><slot id="a" data-each="items"></slot></select>"#).unwrap();
    assert!(out.contains(r#"<script type="statica/slot" id="a" data-each="items"></script>"#), "{out}");
}
