use indexmap::IndexMap;
use statica::aliases::{AliasOptions, LocalAlias};
use statica::content::DataKind;
use statica::error::Error;
use statica::funnel::links::{data_link_has_locale_token, data_link_kind, document_has_locale_data, plan_data_links};
use statica::i18n::{interpolate_locale, src_has_locale_token};
use statica::parse::ast::{Document, Element, Node};

fn link(attrs: &[(&str, &str)]) -> Node {
    Node::Element(Element {
        name: "link".into(),
        attrs: attrs.iter().map(|(k, v)| (k.to_string(), v.to_string())).collect::<IndexMap<_, _>>(),
        children: vec![],
        void: true,
    })
}

fn doc(children: Vec<Node>) -> Document {
    Document { doctype: Some("html".into()), children }
}

fn message(e: Error) -> String {
    match e {
        Error::Diag(d) => d.message,
        Error::Msg(m) => m,
    }
}

#[test]
fn plans_each_data_link_in_order() {
    let d = doc(vec![
        link(&[("rel", "statica/data"), ("href", " @content/posts.json "), ("id", " posts ")]),
        link(&[("rel", "stylesheet"), ("href", "/a.css")]),
        link(&[("rel", "statica/data"), ("href", "notes.txt"), ("id", "notes"), ("type", "text/plain")]),
    ]);
    let mut aliases = AliasOptions::default();
    aliases.insert_path("content", LocalAlias::new("./content"));
    let plans = plan_data_links(&d, &aliases, None, None).unwrap();
    assert_eq!(plans.len(), 2);
    assert_eq!(plans[0].id, "posts");
    assert_eq!(plans[0].href, "./content/posts.json");
    assert_eq!(plans[0].type_attr, None);
    assert_eq!(plans[1].type_attr.as_deref(), Some("text/plain"));
}

#[test]
fn data_link_errors() {
    let aliases = AliasOptions::default();
    let e = plan_data_links(&doc(vec![link(&[("rel", "statica/data"), ("href", "a.json")])]), &aliases, None, None);
    assert_eq!(message(e.unwrap_err()), "statica/data link missing id");
    let e = plan_data_links(&doc(vec![link(&[("rel", "statica/data"), ("href", "a.json"), ("id", "page")])]), &aliases, None, None);
    assert_eq!(
        message(e.unwrap_err()),
        "statica/data id `page` conflicts with canonical page context — rename this data source"
    );
    let e = plan_data_links(&doc(vec![link(&[("rel", "statica/data"), ("id", "posts")])]), &aliases, None, None);
    assert_eq!(message(e.unwrap_err()), "statica/data#posts missing href");
    assert_eq!(message(data_link_kind(Some("text/x-weird"), None).unwrap_err()), "unsupported statica/data type `text/x-weird`");
    assert_eq!(data_link_kind(None, None).unwrap(), None);
    assert_eq!(data_link_kind(Some("application/json"), None).unwrap(), Some(DataKind::Json));
}

#[test]
fn locale_links_load_only_in_a_locale_pass() {
    let d = doc(vec![
        link(&[("rel", "statica/data"), ("href", "posts.${locale}.json"), ("id", "posts")]),
        link(&[("rel", "statica/data"), ("href", "authors.json"), ("id", "authors")]),
    ]);
    let aliases = AliasOptions::default();
    let shared = plan_data_links(&d, &aliases, None, None).unwrap();
    assert_eq!(shared.len(), 1);
    assert_eq!(shared[0].id, "authors");
    let pt = plan_data_links(&d, &aliases, None, Some("pt")).unwrap();
    assert_eq!(pt.len(), 1);
    assert_eq!(pt[0].href, "posts.pt.json");
    assert!(document_has_locale_data(&d));
    assert!(data_link_has_locale_token(&d, "posts"));
    assert!(!data_link_has_locale_token(&d, "authors"));
    assert!(src_has_locale_token("a/${locale}/b"));
    assert!(!src_has_locale_token("a/${i18n.locale}/b"));
    assert_eq!(interpolate_locale("${locale}/x.${locale}", "en"), "en/x.en");
}
