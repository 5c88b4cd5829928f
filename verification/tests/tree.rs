use indexmap::IndexMap;
use statica::funnel::json::{data_link_ids, data_links, find_fragment_links, find_template, strip_authoring};
use statica::parse::ast::{Document, Element, Node, SlotKind, StaticaLinkRel};
use statica::parse::serialize::{serialize_document, serialize_nodes};

fn el(name: &str, attrs: &[(&str, &str)], children: Vec<Node>) -> Node {
    Node::Element(Element {
        name: name.into(),
        attrs: attrs.iter().map(|(k, v)| (k.to_string(), v.to_string())).collect::<IndexMap<_, _>>(),
        children,
        void: false,
    })
}

fn link(attrs: &[(&str, &str)]) -> Node {
    Node::Element(Element {
        name: "link".into(),
        attrs: attrs.iter().map(|(k, v)| (k.to_string(), v.to_string())).collect::<IndexMap<_, _>>(),
        children: vec![],
        void: true,
    })
}

fn page() -> Document {
    Document {
        doctype: Some("html".into()),
        children: vec![el(
            "html",
            &[("lang", "en"), ("data-bind", "posts")],
            vec![
                el(
                    "head",
                    &[],
                    vec![
                        link(&[("rel", "statica/data"), ("href", "./posts.json"), ("id", " posts ")]),
                        link(&[("rel", "preload statica/fragment"), ("href", "../ui/card.html"), ("id", "card")]),
                        link(&[("rel", "statica/data"), ("href", "./x.json")]),
                        link(&[("rel", "stylesheet"), ("href", "/a.css")]),
                    ],
                ),
                el(
                    "body",
                    &[],
                    vec![
                        Node::Comment(" hi ".into()),
                        el("template", &[("id", "card")], vec![Node::Text("<b>".into())]),
                        el("p", &[("title", "a\"b<c&d")], vec![Node::Text("x".into())]),
                    ],
                ),
            ],
        )],
    }
}

#[test]
fn serializes_documents() {
    let html = serialize_document(&page());
    assert!(html.starts_with("<!DOCTYPE html>\n<html lang=\"en\" data-bind=\"posts\"><head>"));
    assert!(html.contains("<link rel=\"stylesheet\" href=\"/a.css\" />"));
    assert!(html.contains("<!-- hi -->"));
    assert!(html.contains("<p title=\"a&quot;b&lt;c&amp;d\">x</p>"));
    assert!(html.ends_with("</body></html>"));
    assert_eq!(serialize_nodes(&[Node::Text("a".into()), el("br", &[], vec![])]), "a<br></br>");
}

#[test]
fn finds_links_and_templates() {
    let d = page();
    assert_eq!(data_links(&d).len(), 2);
    assert_eq!(data_link_ids(&d), vec!["posts".to_string()]);
    assert_eq!(find_fragment_links(&d), vec![("card".to_string(), "../ui/card.html".to_string())]);
    let t = find_template(&d, "card").unwrap();
    assert!(t.is_template());
    assert!(find_template(&d, "nope").is_none());
    let found = d.find(|e: &Element| e.is_link());
    assert_eq!(found.len(), 4);
}

#[test]
fn strip_authoring_removes_links_and_html_bind() {
    let mut d = page();
    strip_authoring(&mut d);
    let html = serialize_document(&d);
    assert!(!html.contains("statica/"));
    assert!(!html.contains("data-bind"));
    assert!(html.contains("<html lang=\"en\"><head><link rel=\"stylesheet\" href=\"/a.css\" /></head>"));
}

#[test]
fn element_vocabulary() {
    let e = match el("SLOT", &[("name", "title"), ("data-each", " "), ("data-bind", "  {a, b} ")], vec![]) {
        Node::Element(e) => e,
        _ => unreachable!(),
    };
    assert!(e.is_slot());
    assert_eq!(e.slot_kind(), Some(SlotKind::Named("title".into())));
    assert!(e.each_directive().is_none());
    assert_eq!(e.bind_directive(), Some("{a, b}"));
    assert!(e.has_attr_value("name", "title"));
    assert_eq!(Element::translated_attr_target("data-t-alt"), Some("alt"));
    assert!(Element::is_translation_attr("data-t"));
    assert!(!Element::is_translation_attr("data-title"));
    let l = match link(&[("rel", "x statica/layout")]) {
        Node::Element(e) => e,
        _ => unreachable!(),
    };
    assert_eq!(l.statica_link_rel(), Some(StaticaLinkRel::Layout));
    assert_eq!(l.copy().attr("rel"), Some("x statica/layout"));
}

use statica::render::{Op, RenderPlan};

fn statics(ops: &[Op]) -> Vec<String> {
    ops.iter()
        .map(|o| match o {
            Op::Static(s) => format!("S:{s}"),
            Op::AttrTemplate(s) => format!("A:{s}"),
            Op::TextTemplate(s) => format!("T:{s}"),
            Op::NamedSlot(s) => format!("N:{s}"),
            Op::DefaultSlot(c) => format!("D:{}", c.len()),
            Op::Mount { id, each, children } => format!("M:{id}:{}:{}", each.clone().unwrap_or_default(), children.len()),
        })
        .collect()
}

#[test]
fn compiles_static_and_dynamic_parts() {
    let d = Document {
        doctype: Some("html".into()),
        children: vec![el(
            "html",
            &[("data-bind", "posts"), ("lang", "en")],
            vec![
                link(&[("rel", "statica/data"), ("href", "./p.json"), ("id", "posts")]),
                el("a", &[("href", "/p/${slug}/"), ("data-t-title", "${i18n.t}"), ("class", "x")], vec![Node::Text("hi".into())]),
                el("slot", &[("name", "title")], vec![]),
                el("slot", &[("id", "card"), ("data-each", "posts")], vec![el("slot", &[], vec![Node::Text("fb".into())])]),
                el("script", &[("src", "${cdn}")], vec![Node::Text("a<b".into()), Node::Comment("x".into())]),
                el("p", &[("data-t", "${i18n.p}")], vec![Node::Text("old".into())]),
            ],
        )],
    };
    let plan = RenderPlan::compile_document(&d);
    assert_eq!(
        statics(plan.ops()),
        vec![
            "S:<html lang=\"en\"><a href=\"",
            "A:/p/${slug}/",
            "S:\" class=\"x\" title=\"",
            "T:${i18n.t}",
            "S:\">hi</a>",
            "N:title",
            "M:card:posts:1",
            "S:<script src=\"${cdn}\">a<b</script><p>",
            "T:${i18n.p}",
            "S:</p></html>",
        ]
    );
    let mut out = String::new();
    plan.write_doctype(&mut out);
    assert_eq!(out, "<!DOCTYPE html>\n");
    let mut roots = plan.linked_roots();
    roots.sort();
    assert_eq!(roots, vec!["posts".to_string(), "slug".to_string(), "title".to_string()]);
    let frag = RenderPlan::compile_fragment(&[Node::Text(String::new())]);
    assert!(frag.ops().is_empty());
}
