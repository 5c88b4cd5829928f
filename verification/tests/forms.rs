use indexmap::IndexMap;
use statica::error::Error;
use statica::forms::{form_action, wire_forms_in_document, FormProvider, FormsOptions};
use statica::parse::ast::{Document, Element, Node};
use statica::parse::serialize::serialize_document;

fn el(name: &str, attrs: &[(&str, &str)], children: Vec<Node>) -> Node {
    Node::Element(Element {
        name: name.into(),
        attrs: attrs.iter().map(|(k, v)| (k.to_string(), v.to_string())).collect::<IndexMap<_, _>>(),
        children,
        void: false,
    })
}

fn void_el(name: &str, attrs: &[(&str, &str)]) -> Node {
    Node::Element(Element {
        name: name.into(),
        attrs: attrs.iter().map(|(k, v)| (k.to_string(), v.to_string())).collect::<IndexMap<_, _>>(),
        children: vec![],
        void: true,
    })
}

fn doc(children: Vec<Node>) -> Document {
    Document { doctype: None, children }
}

fn formspree(ids: &[(&str, &str)]) -> FormsOptions {
    let mut f = FormsOptions::default();
    f.enabled = true;
    for (k, v) in ids {
        f.ids.insert(k, v);
    }
    f
}

#[test]
fn formspree_fills_id() {
    let f = formspree(&[("contact", "xyzabc")]);
    assert_eq!(form_action(&f, Some("contact"), None).unwrap(), "https://formspree.io/f/xyzabc");
}

// `<!doctype html><html><body><form name="contact" statica><input name="email" /></form></body></html>`
#[test]
fn wires_formspree_form_by_name() {
    let mut d = Document {
        doctype: Some("html".into()),
        children: vec![el(
            "html",
            &[],
            vec![el(
                "body",
                &[],
                vec![el("form", &[("name", "contact"), ("statica", "")], vec![void_el("input", &[("name", "email")])])],
            )],
        )],
    };
    wire_forms_in_document(&mut d, &formspree(&[("contact", "xyzabc")]), None).unwrap();
    let html = serialize_document(&d);
    assert!(html.contains(r#"action="https://formspree.io/f/xyzabc""#));
    assert!(html.contains(r#"method="POST""#));
    assert!(!html.contains("statica"));
}

// `<form id="newsletter" statica><button>Go</button></form>`
#[test]
fn wires_form_by_id_when_name_missing() {
    let mut d = doc(vec![el("form", &[("id", "newsletter"), ("statica", "")], vec![el("button", &[], vec![Node::Text("Go".into())])])]);
    wire_forms_in_document(&mut d, &formspree(&[("newsletter", "abc123")]), None).unwrap();
    let html = serialize_document(&d);
    assert!(html.contains("https://formspree.io/f/abc123"));
}

// `<form name="contact" statica></form>`
#[test]
fn custom_provider_sets_single_endpoint() {
    let mut d = doc(vec![el("form", &[("name", "contact"), ("statica", "")], vec![])]);
    let mut forms = FormsOptions::default();
    forms.enabled = true;
    forms.provider = FormProvider::Custom;
    forms.endpoint = "https://api.example.com/forms".into();
    wire_forms_in_document(&mut d, &forms, None).unwrap();
    let html = serialize_document(&d);
    assert!(html.contains(r#"action="https://api.example.com/forms""#));
}

// `<form name="missing" statica></form>`
#[test]
fn unmapped_form_errors() {
    let mut d = doc(vec![el("form", &[("name", "missing"), ("statica", "")], vec![])]);
    let err = wire_forms_in_document(&mut d, &formspree(&[]), None).unwrap_err();
    match err {
        Error::Diag(diag) => assert!(diag.to_display_string().contains("[forms.ids]")),
        Error::Msg(m) => panic!("unexpected {m}"),
    }
}

// `<form name="contact" statica></form>`
#[test]
fn disabled_skips_wiring() {
    let mut d = doc(vec![el("form", &[("name", "contact"), ("statica", "")], vec![])]);
    wire_forms_in_document(&mut d, &FormsOptions::default(), None).unwrap();
    let html = serialize_document(&d);
    assert!(html.contains("statica"));
    assert!(!html.contains("formspree.io"));
}

#[test]
fn wired_form_serializes_exactly() {
    let mut d = doc(vec![el("FORM", &[("statica", ""), ("name", "c"), ("method", "get")], vec![])]);
    wire_forms_in_document(&mut d, &formspree(&[("c", "1")]), None).unwrap();
    assert_eq!(serialize_document(&d), r#"<FORM name="c" method="POST" action="https://formspree.io/f/1"></FORM>"#);
    let mut bad = doc(vec![el("form", &[("statica", "")], vec![])]);
    assert!(wire_forms_in_document(&mut bad, &formspree(&[]), None).is_err());
    assert_eq!(serialize_document(&bad), r#"<form statica=""></form>"#);
}

#[test]
fn form_action_without_mapping_errors() {
    let f = formspree(&[]);
    match form_action(&f, Some("contact"), None) {
        Err(Error::Diag(d)) => {
            assert_eq!(d.message, "no [forms.ids] entry for form `contact`");
            assert_eq!(d.file, "<page>");
        }
        other => panic!("unexpected {:?}", other.is_ok()),
    }
}

#[test]
fn missing_key_and_bad_endpoints_error() {
    let f = formspree(&[("a", "1")]);
    assert!(form_action(&f, None, None).is_err());
    let mut g = formspree(&[("a", "1")]);
    g.endpoint = "https://example.com/post".into();
    assert!(form_action(&g, Some("a"), None).is_err());
    let mut c = FormsOptions::default();
    c.provider = FormProvider::Custom;
    c.endpoint = String::new();
    assert!(form_action(&c, Some("a"), None).is_err());
    c.endpoint = "https://example.com/submit".into();
    assert_eq!(form_action(&c, Some("a"), None).unwrap(), "https://example.com/submit");
}

#[test]
fn provider_names() {
    assert_eq!(FormsOptions::provider_from_str(" Custom "), FormProvider::Custom);
    assert_eq!(FormsOptions::provider_from_str("formspree"), FormProvider::Formspree);
    assert_eq!(FormsOptions::provider_from_str("other"), FormProvider::Formspree);
}

#[test]
fn located_error_points_at_the_form() {
    let f = formspree(&[]);
    let src = "<p>x</p>\n<form name=\"contact\" statica></form>";
    match form_action(&f, Some("contact"), Some(("page.html", src))) {
        Err(Error::Diag(d)) => {
            assert_eq!(d.file, "page.html");
            assert_eq!(d.line, 2);
            assert_eq!(d.column, 7);
        }
        _ => panic!("expected a located error"),
    }
}
