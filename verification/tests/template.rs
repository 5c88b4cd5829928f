use statica::funnel::value::Value;
use statica::funnel::template::{expand_dynamic_attribute, 
    has_template_tokens, template_tokens, DottedPath, DynamicAttributeError, TemplatePlaceholder,
    TemplateToken,
};

#[test]
fn tokenizes_text_paths_and_expressions() {
    assert_eq!(
        template_tokens("Hi ${item.title} ${a + b} ${ }"),
        vec![
            TemplateToken::Text("Hi "),
            TemplateToken::Placeholder(TemplatePlaceholder::Path(
                DottedPath::parse("item.title").unwrap()
            )),
            TemplateToken::Text(" "),
            TemplateToken::Placeholder(TemplatePlaceholder::Expression("a + b".into())),
            TemplateToken::Text(" "),
        ]
    );
}

#[test]
fn unclosed_placeholder_stays_text() {
    assert_eq!(
        template_tokens("a ${b"),
        vec![TemplateToken::Text("a ${b")]
    );
    assert!(has_template_tokens("x${"));
    assert!(!has_template_tokens("x$ {"));
}

#[test]
fn dotted_path_root() {
    let p = DottedPath::parse(" page.pagination.next ").unwrap();
    assert_eq!(p.as_str(), "page.pagination.next");
    assert_eq!(p.root(), "page");
    assert!(DottedPath::parse("nav.home-x").is_none());
}

#[test]
fn dynamic_attribute_messages() {
    let err = expand_dynamic_attribute("x/${a + b}", &obj(vec![])).unwrap_err();
    assert_eq!(err, DynamicAttributeError::Expression("a + b".into()));
    assert_eq!(err.authored(), "${a + b}");
    let err = expand_dynamic_attribute("${item}", &obj(vec![("item", obj(vec![]))])).unwrap_err();
    assert_eq!(
        err.message(),
        "template placeholder `${item}` must resolve to a string, number, boolean, or null"
    );
}

#[test]
fn expands_dynamic_attribute_from_context() {
    let ctx = obj(vec![
        ("i18n", obj(vec![("locale", Value::String("pt".into()))])),
        ("item", obj(vec![("slug", Value::String("ola".into()))])),
    ]);
    assert_eq!(
        expand_dynamic_attribute("../content/posts.${i18n.locale}/${item.slug}.json", &ctx).unwrap(),
        "../content/posts.pt/ola.json"
    );
}

#[test]
fn dynamic_attribute_rejects_expressions() {
    let err = expand_dynamic_attribute("${a + b}", &obj(vec![])).unwrap_err();
    assert_eq!(
        err.message(),
        "template placeholder `${a + b}` must be a dotted identifier path, not a JS expression"
    );
}

#[test]
fn dynamic_attribute_requires_defined_paths() {
    let err = expand_dynamic_attribute("${i18n.locale}", &obj(vec![])).unwrap_err();
    assert_eq!(
        err.message(),
        "template placeholder `${i18n.locale}` is not defined in this context"
    );
}

fn obj(members: Vec<(&str, Value)>) -> Value {
    Value::Object(members.into_iter().map(|(k, v)| (k.to_string(), v)).collect())
}
