use statica::i18n::I18nCatalogs;
use statica::discover::{PageFile, PageRoute, PageSource};
use statica::i18n::{
    a11y_translatable_attrs, is_data_t_attr, root_redirect_html, should_emit_root_redirect,
    target_attr_from_data_t_key, I18nOptions,
};
use statica::tokens::{DATA_T, DATA_T_ATTR_PREFIX};
use statica::funnel::value::Value;
use statica::i18n::{apply_data_t, set_html_lang, strip_data_t};
use statica::parse::ast::{Document, Element, Node};
use indexmap::IndexMap;

fn obj(members: Vec<(&str, Value)>) -> Value {
    Value::Object(members.into_iter().map(|(k, v)| (k.to_string(), v)).collect())
}

fn text(s: &str) -> Value {
    Value::String(s.to_string())
}

fn element(node: &Node) -> &Element {
    match node {
        Node::Element(e) => e,
        _ => panic!("expected element"),
    }
}

#[test]
fn strip_data_t_removes_attr_keeps_content() {
    let mut nodes = vec![Node::Element(Element {
        name: "button".into(),
        attrs: IndexMap::from([("data-t".into(), "label".into())]),
        children: vec![Node::Text("Send".into())],
        void: false,
    })];
    strip_data_t(&mut nodes);
    let el = element(&nodes[0]);
    assert!(!el.attrs.contains_key("data-t"));
    assert!(matches!(&el.children[0], Node::Text(t) if t == "Send"));
}

#[test]
fn data_t_replaces_text_and_strips_attr() {
    let catalog = obj(vec![("label", text("Olá"))]);
    let mut nodes = vec![Node::Element(Element {
        name: "span".into(),
        attrs: IndexMap::from([(DATA_T.into(), "${label}".into())]),
        children: vec![Node::Text("hello".into())],
        void: false,
    })];
    apply_data_t(&mut nodes, &catalog);
    let el = element(&nodes[0]);
    assert!(!el.attrs.contains_key(DATA_T));
    assert!(matches!(&el.children[0], Node::Text(t) if t == "Olá"));
}

#[test]
fn data_t_attr_translates_href_and_content() {
    let catalog = obj(vec![
        ("canonical", obj(vec![("href", text("https://example.com/pt/sobre"))])),
        ("description", obj(vec![("content", text("Página sobre nós"))])),
    ]);
    let mut nodes = vec![
        Node::Element(Element {
            name: "link".into(),
            attrs: IndexMap::from([
                ("rel".into(), "canonical".into()),
                ("href".into(), "https://example.com/about".into()),
                ("data-t-href".into(), "${canonical.href}".into()),
            ]),
            children: vec![],
            void: true,
        }),
        Node::Element(Element {
            name: "meta".into(),
            attrs: IndexMap::from([
                ("name".into(), "description".into()),
                ("content".into(), "About us".into()),
                ("data-t-content".into(), "${description.content}".into()),
            ]),
            children: vec![],
            void: true,
        }),
    ];
    apply_data_t(&mut nodes, &catalog);
    assert_eq!(element(&nodes[0]).attr("href"), Some("https://example.com/pt/sobre"));
    assert_eq!(element(&nodes[1]).attr("content"), Some("Página sobre nós"));
}

#[test]
fn data_t_on_void_link_translates_inner_text_not_href() {
    let catalog = obj(vec![("label", text("Stylesheet"))]);
    let mut nodes = vec![Node::Element(Element {
        name: "link".into(),
        attrs: IndexMap::from([
            ("rel".into(), "stylesheet".into()),
            ("href".into(), "/site.css".into()),
            (DATA_T.into(), "${label}".into()),
        ]),
        children: vec![Node::Text("Site CSS".into())],
        void: true,
    })];
    apply_data_t(&mut nodes, &catalog);
    let link = element(&nodes[0]);
    assert_eq!(link.attr("href"), Some("/site.css"));
    assert!(matches!(&link.children[0], Node::Text(t) if t == "Stylesheet"));
}

#[test]
fn data_t_translates_anchor_inner_text() {
    let catalog = obj(vec![("nav", obj(vec![("home", text("Início"))]))]);
    let mut nodes = vec![Node::Element(Element {
        name: "a".into(),
        attrs: IndexMap::from([("href".into(), "/".into()), (DATA_T.into(), "${nav.home}".into())]),
        children: vec![Node::Text("Home".into())],
        void: false,
    })];
    apply_data_t(&mut nodes, &catalog);
    let link = element(&nodes[0]);
    assert_eq!(link.attr("href"), Some("/"));
    assert!(matches!(&link.children[0], Node::Text(t) if t == "Início"));
}

#[test]
fn data_t_attr_translates_aria_label() {
    let catalog = obj(vec![("nav", obj(vec![("skip", text("Saltar para o conteúdo"))]))]);
    let mut nodes = vec![Node::Element(Element {
        name: "a".into(),
        attrs: IndexMap::from([
            ("href".into(), "#main".into()),
            ("aria-label".into(), "Skip to content".into()),
            ("data-t-aria-label".into(), "${nav.skip}".into()),
        ]),
        children: vec![],
        void: false,
    })];
    apply_data_t(&mut nodes, &catalog);
    let el = element(&nodes[0]);
    assert_eq!(el.attr("aria-label"), Some("Saltar para o conteúdo"));
    assert!(!el.attrs.contains_key("data-t-aria-label"));
}

#[test]
fn data_t_attr_translates_alt_and_placeholder() {
    let catalog = obj(vec![
        ("photo", obj(vec![("alt", text("Pôr do sol"))])),
        ("form", obj(vec![("email_placeholder", text("O seu email"))])),
    ]);
    let mut nodes = vec![
        Node::Element(Element {
            name: "img".into(),
            attrs: IndexMap::from([
                ("src".into(), "sunset.jpg".into()),
                ("alt".into(), "Sunset".into()),
                ("data-t-alt".into(), "${photo.alt}".into()),
            ]),
            children: vec![],
            void: true,
        }),
        Node::Element(Element {
            name: "input".into(),
            attrs: IndexMap::from([
                ("type".into(), "email".into()),
                ("placeholder".into(), "Your email".into()),
                ("data-t-placeholder".into(), "${form.email_placeholder}".into()),
            ]),
            children: vec![],
            void: true,
        }),
    ];
    apply_data_t(&mut nodes, &catalog);
    assert_eq!(element(&nodes[0]).attr("alt"), Some("Pôr do sol"));
    assert_eq!(element(&nodes[1]).attr("placeholder"), Some("O seu email"));
}

#[test]
fn data_t_attr_falls_back_to_existing_attr_value() {
    let catalog = obj(vec![]);
    let mut nodes = vec![Node::Element(Element {
        name: "button".into(),
        attrs: IndexMap::from([
            ("aria-label".into(), "Close dialog".into()),
            ("data-t-aria-label".into(), "${missing.key}".into()),
        ]),
        children: vec![Node::Text("×".into())],
        void: false,
    })];
    apply_data_t(&mut nodes, &catalog);
    assert_eq!(element(&nodes[0]).attr("aria-label"), Some(""));
}

#[test]
fn strip_data_t_removes_attr_markers() {
    let mut nodes = vec![Node::Element(Element {
        name: "img".into(),
        attrs: IndexMap::from([("alt".into(), "Photo".into()), ("data-t-alt".into(), "${photo.alt}".into())]),
        children: vec![],
        void: true,
    })];
    strip_data_t(&mut nodes);
    let el = element(&nodes[0]);
    assert!(!el.attrs.contains_key("data-t-alt"));
    assert_eq!(el.attr("alt"), Some("Photo"));
}

#[test]
fn marker_without_target_attr_appends_it_and_html_gets_lang() {
    let catalog = obj(vec![("t", text("Título"))]);
    let mut nodes = vec![Node::Element(Element {
        name: "abbr".into(),
        attrs: IndexMap::from([("data-t-title".into(), "${t}".into()), ("class".into(), "x".into())]),
        children: vec![Node::Element(Element {
            name: "b".into(),
            attrs: IndexMap::from([(DATA_T.into(), "[${t}]".into())]),
            children: vec![],
            void: false,
        })],
        void: false,
    })];
    apply_data_t(&mut nodes, &catalog);
    let el = element(&nodes[0]);
    let pairs: Vec<(&str, &str)> = el.attrs.iter().map(|(k, v)| (k.as_str(), v.as_str())).collect();
    assert_eq!(pairs, vec![("class", "x"), ("title", "Título")]);
    assert!(matches!(&element(&el.children[0]).children[0], Node::Text(t) if t == "[Título]"));

    let mut doc = Document {
        doctype: Some("html".into()),
        children: vec![
            Node::Comment(" top ".into()),
            Node::Element(Element { name: "HTML".into(), attrs: IndexMap::new(), children: vec![], void: false }),
            Node::Element(Element { name: "html".into(), attrs: IndexMap::new(), children: vec![], void: false }),
        ],
    };
    set_html_lang(&mut doc, "pt");
    assert_eq!(element(&doc.children[1]).attr("lang"), Some("pt"));
    assert_eq!(element(&doc.children[2]).attr("lang"), None);
}

#[test]
fn a11y_translatable_attrs_are_data_t_targets() {
    for attr in a11y_translatable_attrs() {
        let marker = format!("{DATA_T_ATTR_PREFIX}{attr}");
        assert!(is_data_t_attr(&marker));
        assert_eq!(target_attr_from_data_t_key(&marker), Some(attr));
    }
}

#[test]
fn root_redirect_html_points_at_default_locale() {
    let html = root_redirect_html("pt");
    assert!(html.contains(r#"lang="pt""#));
    assert!(html.contains(r#"content="0; url=/pt/""#));
    assert!(html.contains(r#"location.replace("/pt/" + location.hash)"#));
}

#[test]
fn route_has_locale_param() {
    let opts = I18nOptions {
        enabled: true,
        ..Default::default()
    };
    assert!(opts.route_has_locale(&["locale"]));
    assert!(opts.route_has_locale(&["locale", "slug"]));
    assert!(!opts.route_has_locale(&["slug"]));
}

#[test]
fn bare_prefix_is_not_a_marker() {
    assert!(!is_data_t_attr("data-t-"));
    assert!(!is_data_t_attr("data-t"));
    assert_eq!(target_attr_from_data_t_key("data-t-"), None);
    assert_eq!(target_attr_from_data_t_key("title"), None);
}

#[test]
fn validate_requires_default_among_locales() {
    let mut opts = I18nOptions { enabled: true, ..Default::default() };
    assert!(opts.validate().is_ok());
    opts.locales = vec!["pt".into(), "fr".into()];
    match opts.validate() {
        Err(statica::error::Error::Diag(d)) => {
            assert_eq!(d.file, "statica.toml");
            assert_eq!(d.message, "[i18n].default `en` must appear in locales (pt, fr)");
        }
        _ => panic!("expected an error"),
    }
    opts.locales = vec![];
    assert!(opts.validate().is_err());
    opts.enabled = false;
    assert!(opts.validate().is_ok());
}

#[test]
fn fallback_defaults_to_default_locale() {
    let mut opts = I18nOptions::default();
    assert_eq!(opts.effective_fallback(), "en");
    opts.fallback = "pt".into();
    assert_eq!(opts.effective_fallback(), "pt");
}

#[test]
fn root_redirect_only_without_home_page() {
    let opts = I18nOptions { enabled: true, ..Default::default() };
    let home = PageSource { path: PageFile::new("/s/index.html".into()), route: PageRoute::new(String::new()), params: vec![] };
    let loc = PageSource { path: PageFile::new("/s/[locale]/index.html".into()), route: PageRoute::new("[locale]".into()), params: vec![] };
    assert!(should_emit_root_redirect(&opts, &[loc.clone()], true));
    assert!(!should_emit_root_redirect(&opts, &[loc.clone(), home], true));
    assert!(!should_emit_root_redirect(&opts, &[loc], false));
    assert!(!should_emit_root_redirect(&I18nOptions::default(), &[], true));
}

#[test]
fn locale_catalog_merges_over_fallback() {
    let mut opts = I18nOptions::default();
    opts.enabled = true;
    opts.locales = vec!["en".into(), "pt".into()];
    let mut catalogs = I18nCatalogs::new();
    catalogs.insert("en", obj(vec![("nav", obj(vec![("home", text("Home")), ("about", text("About"))])), ("title", text("T"))]));
    catalogs.insert("pt", obj(vec![("nav", obj(vec![("home", text("Início"))]))]));
    let pt = catalogs.for_locale("pt", &opts);
    assert_eq!(
        pt,
        obj(vec![("nav", obj(vec![("home", text("Início")), ("about", text("About"))])), ("title", text("T"))])
    );
    let en = catalogs.for_locale("en", &opts);
    assert_eq!(en, obj(vec![("nav", obj(vec![("home", text("Home")), ("about", text("About"))])), ("title", text("T"))]));
    assert_eq!(catalogs.for_locale("fr", &opts), en);
}

#[test]
fn needed_locales_add_a_distinct_fallback() {
    let mut opts = I18nOptions::default();
    opts.locales = vec!["pt".into()];
    opts.default_locale = "pt".into();
    opts.fallback = "en".into();
    assert_eq!(I18nCatalogs::needed_locales(&opts), vec!["pt".to_string(), "en".to_string()]);
    opts.fallback = String::new();
    assert_eq!(I18nCatalogs::needed_locales(&opts), vec!["pt".to_string()]);
}

#[test]
fn catalog_root_keys_must_be_identifiers() {
    let catalogs = I18nCatalogs { by_locale: vec![("en".into(), obj(vec![("nav.home", text("Home"))]))] };
    let err = catalogs.root_keys().unwrap_err();
    match err {
        statica::error::Error::Diag(d) => assert!(d.message.contains("top-level keys must be identifiers")),
        other => panic!("unexpected: {other:?}"),
    }
}

#[test]
fn catalog_root_keys_are_sorted_and_unique() {
    let catalogs = I18nCatalogs {
        by_locale: vec![
            ("pt".into(), obj(vec![("title", text("T")), ("nav", obj(vec![]))])),
            ("en".into(), obj(vec![("about_title", text("A")), ("nav", obj(vec![]))])),
        ],
    };
    assert_eq!(catalogs.root_keys().unwrap(), vec!["about_title".to_string(), "nav".to_string(), "title".to_string()]);
}
