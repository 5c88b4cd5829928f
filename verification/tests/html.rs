use statica::layout::{resolve_layout_relative_href, should_rewrite_layout_href};
use statica::parse::ast::{is_void_element, slot_kind, EachDirective, SlotKind};
use statica::parse::serialize::{escape_attr, escape_text};
use statica::table::StrMap;
use statica::tokens::{missing_data_source_message, missing_fragment_message, rel_double_quoted_data, rel_single_quoted};

#[test]
fn escaping() {
    assert_eq!(escape_text("a < b && c > d"), "a &lt; b &amp;&amp; c &gt; d");
    assert_eq!(escape_attr("say \"hi\" <x>"), "say &quot;hi&quot; &lt;x>");
}

#[test]
fn vocabulary() {
    assert!(is_void_element("IMG"));
    assert!(!is_void_element("div"));
    assert_eq!(slot_kind(Some("head"), None), Some(SlotKind::Named("head".into())));
    assert_eq!(slot_kind(None, None), Some(SlotKind::Default));
    assert_eq!(slot_kind(None, Some("card")), Some(SlotKind::FragmentMount("card".into())));
    assert_eq!(slot_kind(Some("a"), Some("b")), None);
    assert!(EachDirective::new("  ".into()).is_none());
    assert_eq!(EachDirective::new("posts".into()).unwrap().expr(), "posts");
}

#[test]
fn layout_hrefs() {
    assert!(should_rewrite_layout_href(" style.css "));
    assert!(!should_rewrite_layout_href("@ui/x.css"));
    assert!(!should_rewrite_layout_href("/x.css"));
    assert!(!should_rewrite_layout_href("https://x.com/a.css"));
    assert!(!should_rewrite_layout_href("${page.href}"));
    assert_eq!(resolve_layout_relative_href("/site/layouts", "base.css"), "/site/layouts/base.css");
}

#[test]
fn token_messages() {
    assert_eq!(rel_double_quoted_data(), "rel=\"statica/data\"");
    assert_eq!(rel_single_quoted("x"), "rel='x'");
    assert!(missing_data_source_message("posts").starts_with("no data source named `posts`"));
    assert!(missing_fragment_message("card").ends_with("<slot id=\"card\">"));
}

#[test]
fn table_insert_and_get() {
    let mut t = StrMap::new();
    t.insert("a", "1");
    t.insert("b", "2");
    t.insert("a", "3");
    assert_eq!(t.get("a").map(String::as_str), Some("3"));
    assert_eq!(t.get("b").map(String::as_str), Some("2"));
    assert_eq!(t.get("c"), None);
    assert_eq!(t.len(), 2);
    assert_eq!(t.entries[0].0, "a");
}
