use statica::discover::{parse_params, PageFile, PageKind, PageRoute, PageSource, RouteParam};

#[test]
fn parses_slug_param() {
    assert_eq!(parse_params("posts/[slug]")[0].as_str(), "slug");
    assert!(parse_params("blog").is_empty());
}

#[test]
fn params_keep_route_order_and_skip_empty_brackets() {
    let ps = parse_params("[locale]/ [] /docs/ [page] ");
    let names: Vec<&str> = ps.iter().map(|p| p.as_str()).collect();
    assert_eq!(names, vec!["locale", "page"]);
}

#[test]
fn page_kind_follows_params() {
    let stat = PageSource {
        path: PageFile::new("/site/index.html".into()),
        route: PageRoute::new(String::new()),
        params: vec![],
    };
    assert_eq!(stat.kind(), PageKind::Static);
    assert!(stat.route.is_home());
    assert_eq!(stat.path.as_path(), "/site/index.html");
    let coll = PageSource {
        path: PageFile::new("/site/posts/[slug]/index.html".into()),
        route: PageRoute::new("posts/[slug]".into()),
        params: vec![RouteParam::new("slug".into())],
    };
    assert_eq!(coll.kind(), PageKind::Collection);
    assert!(!coll.route.is_home());
    assert_eq!(coll.route.as_str(), "posts/[slug]");
}

#[test]
fn discovers_pages_sorted_by_route() {
    let files = vec![
        "/site/posts/[slug]/index.html".to_string(),
        "/site/index.html".to_string(),
        "/site/blog/index.html".to_string(),
    ];
    let pages = statica::discover::discover_pages("/site", &files).unwrap();
    let routes: Vec<&str> = pages.iter().map(|p| p.route.as_str()).collect();
    assert_eq!(routes, vec!["", "blog", "posts/[slug]"]);
    assert_eq!(pages[2].params.len(), 1);
    assert_eq!(pages[2].params[0].as_str(), "slug");
    assert_eq!(pages[0].path.as_path(), "/site/index.html");
    assert_eq!(pages[0].kind(), statica::discover::PageKind::Static);
    assert_eq!(pages[2].kind(), statica::discover::PageKind::Collection);
}

#[test]
fn discovery_rejects_files_outside_root() {
    let files = vec!["/elsewhere/index.html".to_string()];
    match statica::discover::discover_pages("/site", &files) {
        Err(statica::error::Error::Diag(d)) => assert_eq!(d.message, "path outside root: /elsewhere/index.html"),
        other => panic!("unexpected: {other:?}"),
    }
}

#[test]
fn walk_skips_hidden_and_ignored_entries() {
    let ignore = vec![".dist".to_string(), "target".to_string()];
    assert!(statica::discover::keep_walk_entry("posts", &ignore));
    assert!(!statica::discover::keep_walk_entry(".git", &ignore));
    assert!(!statica::discover::keep_walk_entry("target", &ignore));
}
