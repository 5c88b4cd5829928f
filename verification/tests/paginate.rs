use statica::funnel::json::read_field;
use statica::funnel::value::Value;
use statica::paginate::{
    absolute_href, apply_locale_to_chunk, apply_locale_to_meta, chunk_items, chunk_plan, index_route,
    is_pagination_chunk, localize_route_token, route_with_param, select_items, select_range, sort_items,
    PaginationField, PaginationRule,
};

fn rule(page_size: usize) -> PaginationRule {
    PaginationRule { route: "blog/[page]".into(), page_size, ..PaginationRule::default() }
}

#[test]
fn index_strips_param() {
    assert_eq!(index_route("blog/[page]", "page"), "blog");
    assert_eq!(index_route("posts/page/[page]", "page"), "posts/page");
    assert_eq!(index_route("[page]", "page"), "");
}

fn obj(members: Vec<(&str, Value)>) -> Value {
    Value::Object(members.into_iter().map(|(k, v)| (k.to_string(), v)).collect())
}

fn num(n: usize) -> Value {
    Value::Number(n.to_string())
}

fn text(s: &str) -> Value {
    Value::String(s.to_string())
}

fn at<'a>(v: &'a Value, key: &str) -> &'a Value {
    read_field(v, key).expect("member present")
}

fn arr(v: &Value) -> &Vec<Value> {
    match v {
        Value::Array(items) => items,
        other => panic!("not an array: {other:?}"),
    }
}

fn numbered(n: usize) -> Vec<Value> {
    (1..=n).map(|k| obj(vec![("n", num(k))])).collect()
}

#[test]
fn chunks_and_meta() {
    let items = numbered(5);
    let pages = chunk_items(&items, &rule(2), "blog/[page]", "page");
    assert_eq!(pages.len(), 3);
    assert_eq!(pages[0].page, "1");
    assert_eq!(at(&pages[0].value, "total_pages"), &num(3));
    assert_eq!(arr(at(&pages[0].value, "items")).len(), 2);
    assert_eq!(at(&pages[0].value, "path"), &text("blog/1"));
    assert_eq!(at(&pages[0].value, "href"), &text("/blog/1/"));
    assert_eq!(at(&pages[0].value, "next_href"), &text("/blog/2/"));
    assert_eq!(at(&pages[0].value, "prev_href"), &text(""));
    assert_eq!(arr(at(&pages[0].value, "pages")).len(), 3);
    assert_eq!(at(&arr(at(&pages[0].value, "pages"))[0], "current"), &Value::Bool(true));
    assert_eq!(arr(at(&pages[2].value, "items")).len(), 1);
    assert_eq!(at(&pages[2].value, "has_next"), &Value::Bool(false));
}

#[test]
fn limit_and_offset() {
    let items = numbered(10);
    let mut r = rule(3);
    r.offset = 2;
    r.limit = 5;
    let selected = select_items(&items, &r);
    assert_eq!(selected.len(), 5);
    assert_eq!(at(&selected[0], "n"), &num(3));
    let pages = chunk_items(&items, &r, "blog/[page]", "page");
    assert_eq!(pages.len(), 2); // 5 items / 3
    assert_eq!(at(&pages[0].value, "total_items"), &num(5));
    assert_eq!(at(&pages[0].value, "source_total"), &num(10));
    assert_eq!(at(&pages[0].value, "offset"), &num(2));
    assert_eq!(at(&pages[0].value, "limit"), &num(5));
}

#[test]
fn sort_desc_and_max_pages() {
    let items = vec![
        obj(vec![("slug", text("a")), ("published_at", text("2026-07-01"))]),
        obj(vec![("slug", text("b")), ("published_at", text("2026-07-17"))]),
        obj(vec![("slug", text("c")), ("published_at", text("2026-07-10"))]),
    ];
    let mut r = rule(1);
    r.sort_by = "published_at".into();
    r.sort_desc = true;
    r.max_pages = 2;
    let pages = chunk_items(&items, &r, "blog/[page]", "page");
    assert_eq!(pages.len(), 2);
    assert_eq!(at(&arr(at(&pages[0].value, "items"))[0], "slug"), &text("b"));
    assert_eq!(at(&arr(at(&pages[1].value, "items"))[0], "slug"), &text("c"));
    assert_eq!(at(&pages[0].value, "last_href"), &text("/blog/2/"));
}

#[test]
fn apply_locale_to_chunk_rewrites_hrefs() {
    let items = numbered(4);
    let pages = chunk_items(&items, &rule(2), "[locale]/blog/[page]", "page");
    let localized = apply_locale_to_chunk(&pages[0], "en");
    assert_eq!(at(&localized.value, "path"), &text("en/blog/1"));
    assert_eq!(at(&localized.value, "href"), &text("/en/blog/1/"));
    assert_eq!(at(&localized.value, "next_href"), &text("/en/blog/2/"));
}

#[test]
fn plan_meta_matches_chunks() {
    let r = rule(2);
    let (a, b) = select_range(5, &r);
    let pages = chunk_plan(b - a, 5, &r, "blog/[page]", "page");
    assert_eq!(pages.len(), 3);
    assert_eq!(pages[0].page, "1");
    assert_eq!(pages[0].end - pages[0].start, 2);
    assert!(pages[0].pages[0].current);
    assert!(!pages[0].pages[1].current);
    assert_eq!(pages[2].end - pages[2].start, 1);
    let mut far = rule(3);
    far.offset = 10;
    assert_eq!(select_range(10, &far), (0, 0));
}

#[test]
fn sort_is_stable_and_ascending_by_default() {
    let items = vec![
        obj(vec![("k", text("b")), ("i", num(1))]),
        obj(vec![("k", text("a")), ("i", num(2))]),
        obj(vec![("i", num(3))]),
        obj(vec![("k", text("b")), ("i", num(4))]),
        obj(vec![("k", Value::Null), ("i", num(5))]),
    ];
    let sorted = sort_items(&items, "k", false);
    let order: Vec<&Value> = sorted.iter().map(|v| at(v, "i")).collect();
    assert_eq!(order, vec![&num(3), &num(5), &num(2), &num(1), &num(4)]);
    let desc = sort_items(&items, "k", true);
    let order: Vec<&Value> = desc.iter().map(|v| at(v, "i")).collect();
    assert_eq!(order, vec![&num(1), &num(4), &num(2), &num(3), &num(5)]);
}

#[test]
fn pagination_chunk_shape() {
    let pages = chunk_items(&numbered(1), &rule(5), "blog/[page]", "page");
    match &pages[0].value {
        Value::Object(m) => assert!(is_pagination_chunk(m)),
        other => panic!("not an object: {other:?}"),
    }
    assert!(!is_pagination_chunk(&vec![("items".to_string(), Value::Array(vec![]))]));
    assert!(chunk_items(&[], &rule(5), "blog/[page]", "page").is_empty());
}

#[test]
fn max_pages_caps_and_last_href() {
    let mut r = rule(1);
    r.max_pages = 2;
    let pages = chunk_plan(3, 3, &r, "blog/[page]", "page");
    assert_eq!(pages.len(), 2);
    assert_eq!(pages[0].last_href, "/blog/2/");
    assert_eq!(pages[1].prev, "1");
}

#[test]
fn apply_locale_to_meta_rewrites_hrefs() {
    let pages = chunk_plan(4, 4, &rule(2), "[locale]/blog/[page]", "page");
    let localized = apply_locale_to_meta(&pages[0], "en");
    assert_eq!(localized.path, "en/blog/1");
    assert_eq!(localized.href, "/en/blog/1/");
    assert_eq!(localized.next_href, "/en/blog/2/");
    assert_eq!(localized.pages[1].href, "/en/blog/2/");
}

#[test]
fn routes_and_hrefs() {
    assert_eq!(route_with_param("/blog//[page]/", "page", "3"), "blog/3");
    assert_eq!(absolute_href(""), "/");
    assert_eq!(localize_route_token("[locale]/x/[locale]", "pt"), "pt/x/pt");
    assert_eq!(PaginationField::PrevHref.as_str(), "prev_href");
    assert_eq!(chunk_plan(0, 0, &rule(2), "blog/[page]", "page").len(), 0);
    assert_eq!(chunk_plan(3, 3, &rule(0), "blog/[page]", "page").len(), 3);
}
