use indexmap::IndexMap;
use statica::bind::slots::{clear_remaining_named_slots, fill_projection_slots, fill_projection_slots_within, SlotProjection};
use statica::layout::{
    apply_page_layout, collect_projection, copy_page_html_bind_if_missing, fill_layout_slots, find_layout_href,
    layout_href,
};
use statica::aliases::{AliasOptions, LocalAlias};
use statica::parse::ast::{Document, Element, Node};
use statica::parse::serialize::{serialize_document, serialize_nodes};

fn element(name: &str, attrs: &[(&str, &str)], children: Vec<Node>) -> Node {
    let mut map = IndexMap::new();
    for (name, value) in attrs {
        map.insert((*name).into(), (*value).into());
    }
    Node::Element(Element { name: name.into(), attrs: map, children, void: false })
}

fn text(t: &str) -> Node {
    Node::Text(t.into())
}

fn named_slot(name: &str, fallback: &str) -> Node {
    element("slot", &[("name", name)], vec![text(fallback)])
}

fn doc(children: Vec<Node>) -> Document {
    Document { doctype: Some("html".into()), children }
}

#[test]
fn named_projection_replaces_matching_slot() {
    let mut nodes = vec![named_slot("label", "fallback")];
    let children = vec![element("strong", &[("slot", "label")], vec![text("Projected")])];
    let projection = SlotProjection::from_mount_children(&children);
    fill_projection_slots(&mut nodes, &projection);
    match &nodes[0] {
        Node::Element(el) => {
            assert_eq!(el.name, "strong");
            assert!(el.attr("slot").is_none());
        }
        other => panic!("unexpected: {other:?}"),
    }
}

#[test]
fn named_projection_keeps_fallback_without_matching_child() {
    let mut nodes = vec![named_slot("label", "fallback")];
    let projection = SlotProjection::from_mount_children(&[]);
    fill_projection_slots(&mut nodes, &projection);
    assert!(matches!(&nodes[0], Node::Text(t) if t == "fallback"));
}

#[test]
fn unslotted_children_project_to_default_slot() {
    let mut nodes = vec![element("slot", &[], vec![text("fallback")])];
    let children = vec![element("p", &[], vec![text("Projected")])];
    let projection = SlotProjection::from_mount_children(&children);
    fill_projection_slots(&mut nodes, &projection);
    assert!(matches!(&nodes[0], Node::Element(el) if el.name == "p"));
}

#[test]
fn mount_children_sorted_by_trimmed_slot_name() {
    let children = vec![
        element("b", &[("slot", " title ")], vec![text("T")]),
        text(" "),
        element("i", &[("slot", "  ")], vec![]),
        element("u", &[("slot", "title")], vec![]),
    ];
    let projection = SlotProjection::from_mount_children(&children);
    assert_eq!(serialize_nodes(projection.default_children()), " <i slot=\"  \"></i>");
    let mut nodes = vec![element("div", &[], vec![named_slot("title", "x")])];
    fill_projection_slots(&mut nodes, &projection);
    assert_eq!(serialize_nodes(&nodes), "<div><b>T</b><u></u></div>");
}

#[test]
fn clears_named_slots_keeping_fallback() {
    let mut nodes = vec![element(
        "div",
        &[],
        vec![
            element("slot", &[("name", "a")], vec![text("A"), named_slot("b", "B")]),
            element("slot", &[], vec![text("default stays")]),
        ],
    )];
    clear_remaining_named_slots(&mut nodes);
    assert_eq!(serialize_nodes(&nodes), "<div>AB<slot>default stays</slot></div>");
}

fn page_with_sidebar() -> Document {
    doc(vec![element(
        "html",
        &[],
        vec![
            element(
                "head",
                &[],
                vec![
                    element("title", &[], vec![text("Page title")]),
                    element("link", &[("rel", "statica/layout"), ("href", "./layout.html")], vec![]),
                ],
            ),
            element(
                "body",
                &[],
                vec![
                    text("\n"),
                    element("h1", &[], vec![text("Hello")]),
                    text("\n"),
                    element("template", &[("slot", "sidebar")], vec![element("p", &[], vec![text("Side")])]),
                    text("\n"),
                ],
            ),
        ],
    )])
}

fn sidebar_layout() -> Document {
    doc(vec![element(
        "html",
        &[],
        vec![
            element("head", &[], vec![named_slot("head", "")]),
            element(
                "body",
                &[],
                vec![
                    element("main", &[], vec![element("slot", &[], vec![])]),
                    element("aside", &[], vec![named_slot("sidebar", "Fallback")]),
                ],
            ),
        ],
    )])
}

#[test]
fn projects_default_and_named_slots() {
    let page = page_with_sidebar();
    let mut layout = sidebar_layout();
    let projection = collect_projection(&page);
    fill_layout_slots(&mut layout.children, &projection);
    let html = serialize_document(&layout);
    assert!(html.contains("<title>Page title</title>"), "{html}");
    assert!(html.contains("<main><h1>Hello</h1>"), "{html}");
    assert!(html.contains("<aside><p>Side</p></aside>"), "{html}");
    assert!(!html.contains("<template"), "{html}");
    assert!(!html.contains("statica/layout"), "{html}");
}

#[test]
fn named_element_projection_removes_slot_attr() {
    let page = doc(vec![element(
        "html",
        &[],
        vec![element(
            "body",
            &[],
            vec![element("nav", &[("slot", "nav")], vec![element("a", &[("href", "/")], vec![text("Home")])])],
        )],
    )]);
    let mut layout = doc(vec![element(
        "html",
        &[],
        vec![element("body", &[], vec![element("header", &[], vec![named_slot("nav", "")])])],
    )]);
    let projection = collect_projection(&page);
    fill_layout_slots(&mut layout.children, &projection);
    let html = serialize_document(&layout);
    assert!(html.contains("<nav><a href=\"/\">Home</a></nav>"), "{html}");
    assert!(!html.contains("slot=\"nav\""), "{html}");
}

#[test]
fn copies_page_html_bind_when_layout_has_none() {
    let page = doc(vec![element("html", &[("data-bind", "{item}")], vec![element("body", &[], vec![])])]);
    let mut layout =
        doc(vec![element("html", &[], vec![element("body", &[], vec![element("slot", &[], vec![])])])]);
    copy_page_html_bind_if_missing(&page, &mut layout);
    match &layout.children[0] {
        Node::Element(html) => assert_eq!(html.attr("data-bind"), Some("{item}")),
        other => panic!("unexpected: {other:?}"),
    }
}

#[test]
fn finds_the_single_layout_link() {
    let page = page_with_sidebar();
    assert_eq!(find_layout_href(&page, None).unwrap().as_deref(), Some("./layout.html"));
    assert_eq!(find_layout_href(&sidebar_layout(), None).unwrap(), None);
    let two = doc(vec![
        element("link", &[("rel", "statica/layout"), ("href", "a.html")], vec![]),
        element("link", &[("rel", "statica/layout"), ("href", "b.html")], vec![]),
    ]);
    assert!(find_layout_href(&two, None).is_err());
    let missing = doc(vec![element("link", &[("rel", "statica/layout")], vec![])]);
    assert!(find_layout_href(&missing, None).is_err());
}

#[test]
fn layout_href_resolves_aliases() {
    let page = doc(vec![element("link", &[("rel", "statica/layout"), ("href", "@ui/base.html")], vec![])]);
    let mut aliases = AliasOptions::default();
    aliases.insert_path("ui", LocalAlias::new("./ui"));
    assert_eq!(layout_href(&page, &aliases, None).unwrap().as_deref(), Some("./ui/base.html"));
}

#[test]
fn applies_layout_and_rebases_layout_links() {
    let mut page = page_with_sidebar();
    let mut layout = sidebar_layout();
    if let Node::Element(html) = &mut layout.children[0] {
        if let Node::Element(head) = &mut html.children[0] {
            head.children.push(element(
                "link",
                &[("rel", "statica/data"), ("href", "./posts.json"), ("id", "posts")],
                vec![],
            ));
        }
    }
    apply_page_layout(&mut page, layout, "/site", "/site/layouts/base.html");
    let html = serialize_document(&page);
    assert!(html.contains("href=\"layouts/./posts.json\""), "{html}");
    assert!(html.contains("<main><h1>Hello</h1></main>"), "{html}");
}

#[test]
fn bounded_fill_stops_a_walk_that_does_not_end() {
    let children = vec![text("a"), element("slot", &[], vec![])];
    let projection = SlotProjection::from_mount_children(&children);
    let mut nodes = vec![element("slot", &[], vec![])];
    assert!(!fill_projection_slots_within(&mut nodes, &projection, 200));
    assert_eq!(serialize_nodes(&nodes), "<slot></slot>");

    let projection = SlotProjection::from_mount_children(&[element("p", &[], vec![text("x")])]);
    let mut nodes = vec![element("div", &[], vec![element("slot", &[], vec![])])];
    assert!(fill_projection_slots_within(&mut nodes, &projection, 200));
    assert_eq!(serialize_nodes(&nodes), "<div><p>x</p></div>");
}
