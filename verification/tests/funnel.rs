use std::sync::Arc;

use statica::bind::resolve_each_array;
use statica::content::{DataKind, DataSet};
use statica::funnel::json::{
    field_as_str, path_as_str, path_value, read_field, resolve_expr, value_as_str, value_to_html,
    DataSource,
};
use statica::funnel::value::Value;

fn obj(members: Vec<(&str, Value)>) -> Value {
    Value::Object(members.into_iter().map(|(k, v)| (k.to_string(), v)).collect())
}

fn num(n: &str) -> Value {
    Value::Number(n.to_string())
}

fn text(s: &str) -> Value {
    Value::String(s.to_string())
}

fn source(id: &str, data: DataSet) -> DataSource {
    DataSource { id: id.to_string(), kind: DataKind::Json, path: format!("/site/{id}.json"), data: Arc::new(data) }
}

#[test]
fn path_as_str_is_lenient_at_runtime() {
    let ctx = obj(vec![("href", Value::Null), ("variant", text("primary"))]);
    assert_eq!(path_as_str(&ctx, "variant"), "primary");
    assert_eq!(path_as_str(&ctx, "href"), "");
    assert_eq!(path_as_str(&ctx, "missing"), "");
    assert_eq!(path_as_str(&obj(vec![("obj", obj(vec![("a", num("1"))]))]), "obj"), "");
}

#[test]
fn value_reads_validate_js_types() {
    assert_eq!(value_as_str(&Value::Null).as_deref(), Some(""));
    assert_eq!(value_as_str(&text("a")).as_deref(), Some("a"));
    assert_eq!(value_as_str(&num("1")).as_deref(), Some("1"));
    assert_eq!(value_as_str(&Value::Bool(false)).as_deref(), Some("false"));
    assert!(value_as_str(&obj(vec![])).is_none());
    assert!(value_as_str(&Value::Array(vec![])).is_none());
    assert_eq!(value_to_html(&Value::Null), "");
    assert_eq!(value_to_html(&obj(vec![("a", num("1"))])), "");
    // field_as_str keeps null/missing as absent for route keys
    assert!(field_as_str(&obj(vec![("slug", Value::Null)]), "slug").is_none());
    assert!(field_as_str(&obj(vec![]), "slug").is_none());
    assert_eq!(field_as_str(&obj(vec![("slug", text("a"))]), "slug").as_deref(), Some("a"));
}

#[test]
fn value_to_html_escapes_plain_text_only() {
    assert_eq!(value_to_html(&text("a < b")), "a &lt; b");
    assert_eq!(value_to_html(&text("<em>x</em>")), "<em>x</em>");
    assert_eq!(value_to_html(&num("2.5")), "2.5");
    assert_eq!(value_to_html(&Value::Bool(true)), "true");
}

#[test]
fn dotted_paths_walk_objects() {
    let v = obj(vec![("a", obj(vec![("b", text("deep"))])), ("a", text("shadowed"))]);
    assert_eq!(path_value(&v, " a.b "), Some(&text("deep")));
    assert_eq!(path_value(&v, "a..b"), Some(&text("deep")));
    assert_eq!(path_value(&v, "a.c"), None);
    assert_eq!(path_value(&v, "   "), None);
    assert_eq!(path_value(&v, "."), Some(&v));
    assert_eq!(read_field(&text("x"), "a"), None);
}

#[test]
fn resolve_expr_reads_sources_then_current() {
    let posts = source("posts", DataSet::Json(obj(vec![("title", text("Hello"))])));
    let site = source("site", DataSet::Lines(vec!["one".into(), "two".into()]));
    let cur = obj(vec![("slug", text("hi")), ("posts", text("member"))]);
    let local = vec![posts];
    let parent = vec![site];
    assert_eq!(resolve_expr("", Some(&cur), &local, &parent).unwrap(), Value::Null);
    assert_eq!(resolve_expr(" . ", Some(&cur), &local, &parent).unwrap(), cur);
    assert_eq!(resolve_expr("this.slug", Some(&cur), &local, &parent).unwrap(), text("hi"));
    assert_eq!(resolve_expr("posts.title", Some(&cur), &local, &parent).unwrap(), text("Hello"));
    assert_eq!(resolve_expr("posts.nope", Some(&cur), &local, &parent).unwrap(), Value::Null);
    assert_eq!(
        resolve_expr("site", None, &local, &parent).unwrap(),
        Value::Array(vec![text("one"), text("two")])
    );
    assert_eq!(resolve_expr("slug", Some(&cur), &local, &parent).unwrap(), text("hi"));
    let err = resolve_expr("nothing.here", Some(&cur), &local, &parent).unwrap_err();
    match err {
        statica::error::Error::Diag(d) => {
            assert_eq!(d.file, "<data>");
            assert_eq!(d.message, "missing data source id `nothing` (no <link rel=\"statica/data\" id=\"nothing\">)");
        }
        other => panic!("unexpected {other:?}"),
    }
    assert!(resolve_expr("..", Some(&cur), &local, &parent).is_err());
}

#[test]
fn data_sets_become_values() {
    let glob = DataSet::Glob(vec![
        DataSet::Records(vec![num("1")]),
        DataSet::Markdown(obj(vec![("html", text("<p>x</p>"))])),
    ]);
    assert_eq!(
        glob.to_value(),
        Value::Array(vec![Value::Array(vec![num("1")]), obj(vec![("html", text("<p>x</p>"))])])
    );
    assert_eq!(DataSet::Json(num("3")).as_array(), None);
    assert_eq!(DataSet::Json(Value::Array(vec![num("3")])).as_array(), Some(vec![num("3")]));
    assert_eq!(DataSet::Markdown(Value::Array(vec![])).as_array(), None);
    assert_eq!(DataSet::Lines(vec!["a".into()]).as_array(), Some(vec![text("a")]));
}

#[test]
fn each_walks_arrays() {
    let posts = source("posts", DataSet::Records(vec![text("p1"), text("p2")]));
    let nav = source("nav", DataSet::Json(obj(vec![("links", Value::Array(vec![text("l")]))])));
    let cur = obj(vec![("tags", Value::Array(vec![text("t")])), ("title", text("x"))]);
    let local = vec![posts, nav];
    let list = resolve_each_array("tags", Some(&cur), &local, &[]).unwrap();
    assert_eq!(list, Some(vec![text("t")]));
    let list = resolve_each_array("posts", Some(&cur), &local, &[]).unwrap();
    assert_eq!(list, Some(vec![text("p1"), text("p2")]));
    let list = resolve_each_array("nav.links", None, &local, &[]).unwrap();
    assert_eq!(list, Some(vec![text("l")]));
    assert_eq!(resolve_each_array("nav.missing", None, &local, &[]).unwrap(), None);
    assert_eq!(resolve_each_array(" ", None, &local, &[]).unwrap(), None);
    assert_eq!(
        resolve_each_array(".", Some(&Value::Array(vec![num("1")])), &local, &[]).unwrap(),
        Some(vec![num("1")])
    );
    assert!(resolve_each_array("title", Some(&cur), &local, &[]).is_err());
    assert!(resolve_each_array(".", Some(&text("x")), &local, &[]).is_err());
}
