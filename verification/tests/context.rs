use statica::context::CanonicalContext;
use statica::discover::{PageFile, PageRoute, PageSource, RouteParam};
use statica::funnel::json::read_field;
use statica::context::{ContextData, ContextTree};
use statica::context::{CanonicalRoot, ContextLayer, ContextScope};

#[test]
fn canonical_roots_round_trip_by_name() {
    for r in [CanonicalRoot::Data, CanonicalRoot::Item, CanonicalRoot::Page, CanonicalRoot::I18n] {
        assert_eq!(CanonicalRoot::from_str(r.as_str()), Some(r));
    }
    assert_eq!(CanonicalRoot::from_str("Data"), None);
    assert_eq!(CanonicalRoot::I18n.as_str(), "i18n");
}

#[test]
fn layers_put_bound_first() {
    for s in [ContextScope::Page, ContextScope::Fragment] {
        assert_eq!(s.layers(), vec![ContextLayer::Bound, ContextLayer::Linked]);
    }
}

fn source(id: &str, value: statica::funnel::value::Value) -> statica::funnel::json::DataSource {
    statica::funnel::json::DataSource {
        id: id.to_string(),
        kind: statica::content::DataKind::Json,
        path: format!("{id}.json"),
        data: std::sync::Arc::new(statica::content::DataSet::Json(value)),
    }
}

fn text(t: &str) -> statica::funnel::value::Value {
    statica::funnel::value::Value::String(t.to_string())
}

fn obj(members: Vec<(&str, statica::funnel::value::Value)>) -> statica::funnel::value::Value {
    statica::funnel::value::Value::Object(members.into_iter().map(|(k, v)| (k.to_string(), v)).collect())
}

#[test]
fn page_bound_roots_precede_linked_roots() {
    let data = ContextData::new(vec![("title".to_string(), source("title", text("linked")))]);
    let tree = ContextTree::new(ContextScope::Page, obj(vec![("title", text("bound"))]), data);
    assert_eq!(tree.render_context(), obj(vec![("title", text("bound"))]));
}

#[test]
fn fragment_bound_roots_precede_linked_roots_without_canonical_fallback() {
    let data = ContextData::new(vec![
        ("label".to_string(), source("label", text("linked"))),
        ("item".to_string(), source("item", obj(vec![("headline", text("canonical"))]))),
    ]);
    let tree = ContextTree::new(ContextScope::Fragment, obj(vec![("label", text("bound"))]), data);
    assert_eq!(tree.render_context(), obj(vec![("label", text("bound"))]));
}

#[test]
fn i18n_catalog_merges_only_when_i18n_is_bound() {
    let unbound = ContextTree::new(ContextScope::Page, obj(vec![]), ContextData::new(vec![]));
    let catalog = obj(vec![("title", text("Home"))]);
    assert_eq!(unbound.translated_context(Some(&catalog)), obj(vec![]));

    let bound = ContextTree::new(
        ContextScope::Page,
        obj(vec![("i18n", obj(vec![("locale", text("en"))]))]),
        ContextData::new(vec![]),
    );
    assert_eq!(
        bound.translated_context(Some(&catalog)),
        obj(vec![("i18n", obj(vec![("locale", text("en")), ("title", text("Home"))]))])
    );
}

#[test]
fn linked_roots_fill_names_the_bound_value_lacks() {
    let data = ContextData::new(vec![
        ("posts".to_string(), source("posts", text("P"))),
        ("page".to_string(), source("page", text("canonical"))),
    ]);
    let tree = ContextTree::new(ContextScope::Page, text("not an object"), data);
    assert_eq!(tree.render_context(), obj(vec![("posts", text("P"))]));
}

#[test]
fn canonical_context_for_a_collection_item() {
    let source = PageSource {
        path: PageFile::new("/site/[locale]/posts/[slug]/index.html".into()),
        route: PageRoute::new("[locale]/posts/[slug]".into()),
        params: vec![RouteParam::new("locale".into()), RouteParam::new("slug".into())],
    };
    let item = obj(vec![("slug", text("ola"))]);
    let data = ContextData::new(vec![("posts".to_string(), source_of("posts", text("P")))]);
    let ctx = CanonicalContext::new(&source, Some(&item), &data, Some("pt"));
    let v = ctx.value();
    assert_eq!(read_field(v, "item"), Some(&item));
    let page = read_field(v, "page").unwrap();
    assert_eq!(read_field(page, "route"), Some(&text("[locale]/posts/[slug]")));
    assert_eq!(
        read_field(page, "params"),
        Some(&obj(vec![("locale", text("pt")), ("slug", text("ola"))]))
    );
    assert!(read_field(page, "pagination").is_none());
    assert_eq!(read_field(v, "data"), Some(&obj(vec![("posts", text("P"))])));
    assert_eq!(read_field(v, "i18n"), Some(&obj(vec![("locale", text("pt"))])));
}

fn source_of(id: &str, value: statica::funnel::value::Value) -> statica::funnel::json::DataSource {
    source(id, value)
}

#[test]
fn canonical_roots_become_data_sources() {
    let source = PageSource {
        path: PageFile::new("/site/about/index.html".into()),
        route: PageRoute::new("about".into()),
        params: vec![],
    };
    let data = ContextData::new(vec![("posts".to_string(), source_of("posts", text("P")))]);
    let ctx = CanonicalContext::new(&source, None, &data, None);
    let all = ctx.as_data_sources(data);
    let ids: Vec<&str> = all.as_map().iter().map(|(k, _)| k.as_str()).collect();
    assert_eq!(ids, vec!["posts", "data", "item", "page", "i18n"]);
    let (_, page) = &all.as_map()[3];
    assert_eq!(page.path, "statica:page");
    assert_eq!(read_field(&page.value(), "route"), Some(&text("about")));
    let (_, item) = &all.as_map()[2];
    assert_eq!(item.value(), statica::funnel::value::Value::Null);
}
