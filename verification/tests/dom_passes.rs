use indexmap::IndexMap;
use statica::alias_paths::{resolve_paths_in_document, resolve_paths_in_nodes};
use statica::aliases::{AliasOptions, LocalAlias, UrlAlias};
use statica::error::Error;
use statica::parse::ast::{Document, Element, Node};
use statica::parse::normalize::normalize_authoring_nodes;
use statica::parse::serialize::{serialize_document, serialize_nodes};
use statica::scope::dedupe::{dedupe_helpers_in_document, dedupe_styles_in_document};
use statica::scope::scripts::rewrite_scripts_in_nodes;

fn el(name: &str, attrs: &[(&str, &str)], children: Vec<Node>) -> Node {
    Node::Element(Element {
        name: name.into(),
        attrs: attrs.iter().map(|(k, v)| (k.to_string(), v.to_string())).collect::<IndexMap<_, _>>(),
        children,
        void: false,
    })
}

fn text(t: &str) -> Node {
    Node::Text(t.into())
}

fn doc(children: Vec<Node>) -> Document {
    Document { doctype: Some("html".into()), children }
}

#[test]
fn resolve_paths_in_document_rewrites_src_and_href() {
    let mut d = doc(vec![el(
        "html",
        &[],
        vec![el(
            "body",
            &[],
            vec![
                el("a", &[("href", "@fonts/?family=Outfit&display=swap")], vec![text("x")]),
                el("script", &[("src", "@assets/app.js")], vec![]),
            ],
        )],
    )]);
    let mut aliases = AliasOptions::default();
    aliases.insert_url("fonts", UrlAlias::new("https://fonts.googleapis.com/css2"));
    aliases.insert_path("assets", LocalAlias::new("./static"));

    resolve_paths_in_document(&mut d, &aliases, None).unwrap();
    let html = serialize_document(&d);
    assert!(html.contains("fonts.googleapis.com/css2?family=Outfit"));
    assert!(html.contains(r#"src="./static/app.js""#));
}

#[test]
fn resolve_paths_leaves_plain_paths_and_other_attrs() {
    let mut nodes = vec![el("img", &[("src", "/a.png"), ("alt", "@assets/x"), ("poster", "@assets/p.jpg")], vec![])];
    let mut aliases = AliasOptions::default();
    aliases.insert_path("assets", LocalAlias::new("static"));
    resolve_paths_in_nodes(&mut nodes, &aliases, None).unwrap();
    assert_eq!(
        serialize_nodes(&nodes),
        r#"<img src="/a.png" alt="@assets/x" poster="static/p.jpg"></img>"#
    );
}

#[test]
fn resolve_paths_unknown_alias_errors_and_keeps_nodes() {
    let mut nodes = vec![
        el("a", &[("href", "@assets/ok.css")], vec![]),
        el("form", &[("action", "@nowhere/x")], vec![]),
    ];
    let mut aliases = AliasOptions::default();
    aliases.insert_path("assets", LocalAlias::new("static"));
    let before = serialize_nodes(&nodes);
    let err = resolve_paths_in_nodes(&mut nodes, &aliases, None).unwrap_err();
    match err {
        Error::Msg(m) => assert!(m.contains("unknown alias `@nowhere`"), "{m}"),
        Error::Diag(d) => assert!(d.message.contains("unknown alias `@nowhere`"), "{}", d.message),
    }
    assert_eq!(serialize_nodes(&nodes), before);
}

#[test]
fn normalizes_slot_carriers_at_any_depth() {
    let mut nodes = vec![el(
        "div",
        &[],
        vec![
            el("script", &[("type", "statica/slot"), ("name", "title")], vec![]),
            el("script", &[("type", "module")], vec![text("x")]),
        ],
    )];
    normalize_authoring_nodes(&mut nodes);
    assert_eq!(
        serialize_nodes(&nodes),
        r#"<div><slot name="title"></slot><script type="module">x</script></div>"#
    );
}

#[test]
fn wraps_scripts_that_use_the_scope_helper() {
    let mut nodes = vec![el(
        "div",
        &[],
        vec![
            el("script", &[("type", "module")], vec![text("  $.on('click');  ")]),
            el("script", &[], vec![text("console.log(1)")]),
            el("script", &[], vec![text("__staticaScope($)")]),
        ],
    )];
    rewrite_scripts_in_nodes(&mut nodes, "s1", "RT");
    let html = serialize_nodes(&nodes);
    assert!(html.starts_with(
        "<div><script data-statica-scope=\"s1\">RT\n__statica.run(document.currentScript, \"s1\", function (document) {\n  $.on('click');\n});\n</script>"
    ), "{html}");
    assert!(html.contains("<script>console.log(1)</script>"));
    assert!(html.contains("<script>__staticaScope($)</script>"));
}

#[test]
fn dedupes_styles_by_scope() {
    let mut d = doc(vec![el(
        "body",
        &[],
        vec![
            el("style", &[], vec![text(".a[data-s=\"s1\"]{}")]),
            el("p", &[], vec![el("style", &[], vec![text(".b[data-s=\"s1\"]{}")])]),
            el("style", &[], vec![text(".c[data-s=\"s2\"]{}")]),
            el("style", &[], vec![text("body{}")]),
            el("style", &[], vec![text("body{}")]),
        ],
    )]);
    dedupe_styles_in_document(&mut d);
    let html = serialize_nodes(&d.children);
    assert_eq!(
        html,
        "<body><style>.a[data-s=\"s1\"]{}</style><p></p><style>.c[data-s=\"s2\"]{}</style><style>body{}</style></body>"
    );
}

#[test]
fn dedupes_inlined_helpers_after_the_first() {
    let helper = "function __staticaScope(){}\n(function (scriptEl) { run(); })();";
    let mut d = doc(vec![
        el("script", &[("data-statica-scope", "a")], vec![text(helper)]),
        el("script", &[("data-statica-scope", "b")], vec![text(helper)]),
        el("script", &[("data-statica-scope", "c")], vec![text("__statica.scope(x);\nconst $ = f();")]),
    ]);
    dedupe_helpers_in_document(&mut d);
    let html = serialize_nodes(&d.children);
    assert!(html.starts_with(&format!("<script data-statica-scope=\"a\">{helper}</script>")));
    assert!(html.contains("<script data-statica-scope=\"b\">(function (scriptEl) { run(); })();</script>"));
    assert!(html.contains(
        "<script data-statica-scope=\"c\">const $ = __statica.scope(document.currentScript, \"c\");\nconst $ = f();</script>"
    ));
}
