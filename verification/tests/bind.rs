use indexmap::IndexMap;
use statica::bind::{expand_template, fill_attr_templates_in_nodes};
use statica::funnel::value::Value;
use statica::parse::ast::{Element, Node};

fn obj(members: Vec<(&str, Value)>) -> Value {
    Value::Object(members.into_iter().map(|(k, v)| (k.to_string(), v)).collect())
}

#[test]
fn expands_slug_in_href() {
    let ctx = obj(vec![("slug", Value::String("hello-world".into()))]);
    assert_eq!(expand_template("/posts/${slug}/", &ctx), "/posts/hello-world/");
}

#[test]
fn template_expressions_are_not_evaluated() {
    let ctx = obj(vec![("a", Value::Number("1".into())), ("b", Value::Number("2".into()))]);
    assert_eq!(expand_template("${a + b}", &ctx), "");
}

#[test]
fn unclosed_placeholder_stays_and_paths_are_trimmed() {
    let ctx = obj(vec![("x", obj(vec![("y", Value::Bool(true))]))]);
    assert_eq!(expand_template("a ${ x.y } b ${x", &ctx), "a true b ${x");
    assert_eq!(expand_template("$${x.y}$", &ctx), "$true$");
    assert_eq!(expand_template("${x}", &ctx), "");
}

#[test]
fn attribute_templates_fill_outside_scripts_and_markers() {
    let ctx = obj(vec![("slug", Value::String("a".into()))]);
    let mut nodes = vec![
        Node::Element(Element {
            name: "a".into(),
            attrs: IndexMap::from([
                ("href".into(), "/p/${slug}/".into()),
                ("data-t-title".into(), "${slug}".into()),
                ("class".into(), "plain".into()),
            ]),
            children: vec![Node::Element(Element {
                name: "img".into(),
                attrs: IndexMap::from([("alt".into(), "${slug}!".into())]),
                children: vec![],
                void: true,
            })],
            void: false,
        }),
        Node::Element(Element {
            name: "script".into(),
            attrs: IndexMap::from([("data-x".into(), "${slug}".into())]),
            children: vec![Node::Text("let s = `${slug}`;".into())],
            void: false,
        }),
    ];
    fill_attr_templates_in_nodes(&mut nodes, &ctx);
    let a = match &nodes[0] {
        Node::Element(e) => e,
        _ => panic!(),
    };
    assert_eq!(a.attr("href"), Some("/p/a/"));
    assert_eq!(a.attr("data-t-title"), Some("${slug}"));
    assert_eq!(a.attr("class"), Some("plain"));
    match &a.children[0] {
        Node::Element(img) => assert_eq!(img.attr("alt"), Some("a!")),
        _ => panic!(),
    }
    match &nodes[1] {
        Node::Element(s) => assert_eq!(s.attr("data-x"), Some("${slug}")),
        _ => panic!(),
    }
}
