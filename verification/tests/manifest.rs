use indexmap::IndexMap;
use statica::funnel::value::Value;
use statica::manifest::{default_manifest, inject_manifest_tags, manifest_meta_from_value, ManifestMeta, MANIFEST_FILE};
use statica::parse::ast::{Document, Element, Node};
use statica::parse::serialize::serialize_document;

fn el(name: &str, attrs: &[(&str, &str)], children: Vec<Node>, void: bool) -> Node {
    Node::Element(Element {
        name: name.into(),
        attrs: attrs.iter().map(|(k, v)| (k.to_string(), v.to_string())).collect::<IndexMap<_, _>>(),
        children,
        void,
    })
}

fn page(head: Vec<Node>) -> Document {
    Document {
        doctype: Some("html".into()),
        children: vec![el("html", &[], vec![el("head", &[], head, false), el("body", &[], vec![], false)], false)],
    }
}

fn meta() -> ManifestMeta {
    ManifestMeta { theme_color: Some("#111827".into()), apple_touch_icon: Some("/icon-192.png".into()) }
}

// `<!doctype html><html><head><meta charset="utf-8" /></head><body></body></html>`
#[test]
fn injects_tags_from_meta() {
    let mut doc = page(vec![el("meta", &[("charset", "utf-8")], vec![], true)]);
    inject_manifest_tags(&mut doc, &meta());
    let html = serialize_document(&doc);
    assert!(html.contains(r#"<link rel="manifest" href="/manifest.webmanifest""#));
    assert!(html.contains(r##"<meta name="theme-color" content="#111827""##));
    assert!(html.contains(r#"<link rel="apple-touch-icon" href="/icon-192.png""#));
}

// `<html><head><link rel="manifest" href="/custom.webmanifest" /><meta name="theme-color" content="#000" /></head>…`
#[test]
fn skips_existing_tags() {
    let mut doc = page(vec![
        Node::Text("\n".into()),
        el("link", &[("rel", "manifest"), ("href", "/custom.webmanifest")], vec![], true),
        Node::Text("\n".into()),
        el("meta", &[("name", "theme-color"), ("content", "#000")], vec![], true),
        Node::Text("\n".into()),
    ]);
    inject_manifest_tags(&mut doc, &meta());
    let html = serialize_document(&doc);
    assert!(html.contains("/custom.webmanifest"));
    assert!(!html.contains("/manifest.webmanifest"));
    assert!(html.contains(r##"content="#000""##));
    assert!(html.contains(r#"<link rel="apple-touch-icon" href="/icon-192.png""#));
}

#[test]
fn starter_manifest_and_meta_reading() {
    assert!(default_manifest().contains("\"name\": \"My Site\""));
    assert_eq!(MANIFEST_FILE, "public/manifest.webmanifest");
    let obj = |m: Vec<(&str, Value)>| Value::Object(m.into_iter().map(|(k, v)| (k.to_string(), v)).collect());
    let s = |x: &str| Value::String(x.to_string());
    let v = obj(vec![
        ("theme_color", s("  #fff ")),
        (
            "icons",
            Value::Array(vec![
                obj(vec![("src", s("/mask.png")), ("purpose", s("maskable"))]),
                obj(vec![("src", s("  "))]),
                obj(vec![("src", s("/a.png")), ("purpose", s("maskable any"))]),
            ]),
        ),
    ]);
    let m = manifest_meta_from_value(&v);
    assert_eq!(m.theme_color.as_deref(), Some("#fff"));
    assert_eq!(m.apple_touch_icon.as_deref(), Some("/a.png"));
    assert_eq!(manifest_meta_from_value(&Value::Null), ManifestMeta::default());
    let mut no_head = Document { doctype: None, children: vec![el("html", &[], vec![], false)] };
    inject_manifest_tags(&mut no_head, &meta());
    assert_eq!(serialize_document(&no_head), "<html></html>");
}
