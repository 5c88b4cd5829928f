use indexmap::IndexMap;
use statica::parse::ast::{Document, Element, Node};
use statica::parse::serialize::serialize_document;
use statica::search::SearchOptions;
use statica::search_controls::{rewrite_search_controls, search_control};

fn el(name: &str, attrs: &[(&str, &str)], children: Vec<Node>, void: bool) -> Node {
    Node::Element(Element {
        name: name.into(),
        attrs: attrs.iter().map(|(k, v)| (k.to_string(), v.to_string())).collect::<IndexMap<_, _>>(),
        children,
        void,
    })
}

#[test]
fn rewrites_search_inputs_and_loads_runtime_once() {
    let mut doc = Document {
        doctype: Some("html".into()),
        children: vec![el(
            "html",
            &[],
            vec![el(
                "body",
                &[],
                vec![
                    el("input", &[("type", "statica/search"), ("placeholder", "Find")], vec![], true),
                    el("input", &[("type", "statica/search"), ("id", "s2")], vec![], true),
                ],
                false,
            )],
            false,
        )],
    };
    let opts = SearchOptions { limit: 0, filters: vec!["posts".into(), "docs".into()], ..SearchOptions::default() };
    let n = rewrite_search_controls(&mut doc, &opts);
    assert_eq!(n, 2);
    let html = serialize_document(&doc);
    assert!(html.contains(r#"<dialog id="statica-search-1" class="statica-search-modal" data-statica-search="" data-index="/search.json" data-limit="1" data-filters="posts,docs" data-url-field="url">"#), "{html}");
    assert!(html.contains(r#"aria-controls="s2""#), "{html}");
    assert!(html.contains(r#"placeholder="Find""#), "{html}");
    assert_eq!(html.matches("/statica/search.js").count(), 1, "{html}");
    assert!(html.ends_with("<script type=\"module\" src=\"/statica/search.js\"></script></body></html>"), "{html}");
}

#[test]
fn pages_without_search_inputs_stay_as_they_are() {
    let mut doc = Document { doctype: None, children: vec![el("p", &[], vec![Node::Text("x".into())], false)] };
    let before = serialize_document(&doc);
    assert_eq!(rewrite_search_controls(&mut doc, &SearchOptions::default()), 0);
    assert_eq!(serialize_document(&doc), before);
}

#[test]
fn control_defaults_label_and_id() {
    let input = Element {
        name: "input".into(),
        attrs: IndexMap::from([("type".to_string(), "statica/search".to_string())]),
        children: vec![],
        void: true,
    };
    let c = search_control(&input, 7, &SearchOptions::default());
    assert_eq!(c.name, "div");
    assert_eq!(c.children.len(), 3);
    let html = statica::parse::serialize::serialize_nodes(&[Node::Element(c)]);
    assert!(html.contains(r#"aria-controls="statica-search-7" aria-label="Search site""#), "{html}");
    assert!(html.contains(r#"data-limit="10""#));
}

#[test]
fn counts_controls_in_written_pages() {
    let pages = vec![
        "<dialog data-statica-search=\"\"></dialog><dialog data-statica-search=\"\">".to_string(),
        "<p>none</p>".to_string(),
        "data-statica-search".to_string(),
    ];
    assert_eq!(statica::search_controls::count_controls_in_outputs(&pages), 3);
}

#[test]
fn checked_rewrite_counts_like_the_plain_one() {
    let mut doc = Document {
        doctype: None,
        children: vec![el("input", &[("type", "statica/search")], vec![], true)],
    };
    assert_eq!(statica::search_controls::rewrite_search_controls_checked(&mut doc, &SearchOptions::default()), Some(1));
    assert!(serialize_document(&doc).contains("/statica/search.js"));
}
