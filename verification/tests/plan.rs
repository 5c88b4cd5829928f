use statica::build::plan::{assets_detail, feeds_detail, plan_build, plan_responsive_images, plan_search, search_detail};
use statica::build::rebuild::{BuildScope, PageSelection};
use statica::config::StaticaConfig;
use statica::i18n::I18nOptions;
use statica::build::plan::{default_404_html, ensure_default_404, plan_collection_pages, plan_paginated_pages};
use statica::error::Error;
use statica::funnel::json::read_field;
use statica::funnel::value::{to_json_text, Value};
use statica::paginate::PaginationRule;

fn obj(members: Vec<(&str, Value)>) -> Value {
    Value::Object(members.into_iter().map(|(k, v)| (k.to_string(), v)).collect())
}

fn text(s: &str) -> Value {
    Value::String(s.to_string())
}

fn message(e: Error) -> String {
    match e {
        Error::Diag(d) => d.message,
        Error::Msg(m) => m,
    }
}

#[test]
fn collection_pages_follow_items() {
    let items = Value::Array(vec![obj(vec![("slug", text("a"))]), obj(vec![("slug", text("b"))])]);
    let plan = plan_collection_pages(&items, "posts", "posts/[slug]", "slug", None, None).unwrap();
    let routes: Vec<&str> = plan.pages.iter().map(|p| p.route.as_str()).collect();
    assert_eq!(routes, vec!["posts/a", "posts/b"]);
    assert!(plan.warning.is_none());
    let plan = plan_collection_pages(&items, "posts", "[locale]/posts/[slug]", "slug", Some("pt"), None).unwrap();
    assert_eq!(plan.pages[1].route, "pt/posts/b");
}

#[test]
fn collection_errors_and_warning() {
    let empty = Value::Array(vec![]);
    let plan = plan_collection_pages(&empty, "posts", "posts/[slug]", "slug", None, None).unwrap();
    assert_eq!(plan.warning.as_deref(), Some("collection `posts` is empty — 0 pages emitted"));

    let not_array = obj(vec![("a", text("x\"y"))]);
    let err = plan_collection_pages(&not_array, "posts", "posts/[slug]", "slug", None, None).unwrap_err();
    assert_eq!(message(err), "collection `posts` must be an array, got {\"a\":\"x\\\"y\"}");

    let missing = Value::Array(vec![obj(vec![("title", text("t"))])]);
    let err = plan_collection_pages(&missing, "posts", "posts/[slug]", "slug", None, None).unwrap_err();
    assert_eq!(message(err), "collection item missing field `slug` required by route `[slug]`");

    let dup = Value::Array(vec![obj(vec![("slug", text("a"))]), obj(vec![("slug", text("a"))])]);
    let err = plan_collection_pages(&dup, "posts", "posts/[slug]", "slug", None, None).unwrap_err();
    assert_eq!(message(err), "duplicate collection value for `[slug]`: `a`");
}

#[test]
fn json_text_is_compact_and_escaped() {
    let v = Value::Array(vec![Value::Null, Value::Bool(true), Value::Number("2.5".into()), text("a\nb\u{1}")]);
    assert_eq!(to_json_text(&v), "[null,true,2.5,\"a\\nb\\u0001\"]");
}

#[test]
fn paginated_pages_per_locale() {
    let items: Vec<Value> = (1..=3).map(|i| obj(vec![("n", Value::Number(i.to_string()))])).collect();
    let rule = PaginationRule { route: "blog/[page]".into(), page_size: 2, ..PaginationRule::default() };
    let plain = plan_paginated_pages(&items, &rule, "blog/[page]", "blog", "page", None);
    let routes: Vec<&str> = plain.iter().map(|p| p.route.as_str()).collect();
    assert_eq!(routes, vec!["blog/1", "blog/2"]);
    assert!(plain.iter().all(|p| p.locale.is_none()));
    let locales = vec!["en".to_string(), "pt".to_string()];
    let per = plan_paginated_pages(&items, &rule, "[locale]/blog/[page]", "blog", "page", Some(&locales));
    let routes: Vec<&str> = per.iter().map(|p| p.route.as_str()).collect();
    assert_eq!(routes, vec!["en/blog/1", "en/blog/2", "pt/blog/1", "pt/blog/2"]);
    assert_eq!(per[2].locale.as_deref(), Some("pt"));
    assert!(read_field(&per[0].chunk.value, "items").is_some());
}

#[test]
fn default_404_only_without_an_authored_one() {
    assert_eq!(ensure_default_404("/out", false, false).as_deref(), Some("/out/404/index.html"));
    assert_eq!(ensure_default_404("/out", true, false), None);
    assert_eq!(ensure_default_404("/out", false, true), None);
    assert!(default_404_html().contains("<h1>404 Not Found</h1>"));
}

#[test]
fn build_passes_belong_to_full_builds() {
    let mut cfg = StaticaConfig::default();
    cfg.rss.enabled = true;
    let opts = cfg.to_build_options("/site");
    let i18n = I18nOptions::default();
    let full = plan_build(&opts, &BuildScope::Full, true, &i18n, &[], false);
    assert!(full.clean && full.default_404 && full.assets && full.rss && !full.sitemap && !full.minify && !full.root_redirect);
    let scoped = plan_build(&opts, &BuildScope::SelectedPages(PageSelection::new()), true, &i18n, &[], false);
    assert!(!scoped.clean && !scoped.default_404 && !scoped.assets && !scoped.rss);
    assert_eq!(plan_search(true, false, 2), (true, true));
    assert_eq!(plan_search(true, true, 0), (true, false));
    assert_eq!(plan_search(false, true, 2), (false, false));
    assert!(plan_responsive_images(true, true, 3));
    assert!(!plan_responsive_images(true, false, 3));
    assert_eq!(assets_detail(true, 4, 9), "4 processed");
    assert_eq!(assets_detail(false, 4, 9), "9 copied");
    assert_eq!(search_detail(2), "index, 2 control(s)");
    assert_eq!(feeds_detail(true, true), "sitemap, rss");
}
