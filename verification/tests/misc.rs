use statica::bind::collection_needles;
use statica::cmd::util::{config_dir_candidates, config_file_in, find_config_dir, site_root, SiteRoot};
use statica::config::StaticaConfig;
use statica::context::ContextData;
use statica::images::{url_path_for_output, variant_output_path};
use statica::paginate::{pagination_for, pagination_listing_route, pagination_rule_matches_route, pagination_rule_root, PaginationRule};
use statica::paths::{ancestors, parent};
use statica::scope::js::wrap_script_with_scope;
use statica::search::{is_404, is_html, url_for_output};

#[test]
fn needles_for_collections() {
    let [a, b] = collection_needles("posts");
    assert_eq!(a, "data-bind=\"posts\"");
    assert_eq!(b, "data-bind='posts'");
}

#[test]
fn project_resolution() {
    let mut cfg = StaticaConfig::default();
    assert_eq!(site_root("/repo", &cfg), SiteRoot::ConfigDir("/repo".into()));
    cfg.project = " apps/docs ".into();
    assert_eq!(site_root("/repo", &cfg), SiteRoot::Project("/repo/apps/docs".into()));
    let c = config_dir_candidates("/repo/nested/deep");
    assert_eq!(c, vec!["/repo/nested/deep", "/repo/nested", "/repo", "/"]);
    assert_eq!(config_file_in("/repo"), "/repo/statica.toml");
    assert_eq!(find_config_dir(&c, &[false, false, true, true]).as_deref(), Some("/repo"));
    assert_eq!(find_config_dir(&c, &[false, false, false, false]), None);
    assert_eq!(ancestors("a/b"), vec!["a/b", "a", ""]);
    assert_eq!(parent("/a/b.jpg").as_deref(), Some("/a"));
    assert_eq!(parent("/").as_deref(), None);
}

#[test]
fn context_links_replace_ids() {
    let base = ContextData::new(vec![("posts".to_string(), 1), ("authors".to_string(), 2)]);
    let merged = base.with_links(vec![("posts".to_string(), 10), ("tags".to_string(), 3)]);
    let m = merged.as_map();
    assert_eq!(m.len(), 3);
    assert_eq!(m[0], ("posts".to_string(), 10));
    assert_eq!(m[1], ("authors".to_string(), 2));
    assert_eq!(m[2], ("tags".to_string(), 3));
}

#[test]
fn scoped_script_wrapper() {
    let s = wrap_script_with_scope("RT", "  go();  ", "card-1a2b3c4d");
    assert_eq!(s, "RT\n__statica.run(document.currentScript, \"card-1a2b3c4d\", function (document) {\n  go();\n});\n");
}

#[test]
fn output_urls() {
    assert_eq!(url_for_output("/out", "/out/index.html"), "/");
    assert_eq!(url_for_output("/out", "/out/blog/post/index.html"), "/blog/post/");
    assert_eq!(url_for_output("/out", "/elsewhere/a.html"), "/");
    assert!(is_404("/out", "/out/404.html"));
    assert!(is_404("/out", "/out/404/index.html"));
    assert!(!is_404("/out", "/out/x/404.html"));
    assert!(is_html("/out/a.html"));
    assert!(!is_html("/out/a.htm"));
    assert_eq!(url_path_for_output("/out", "/out/assets/a.jpg"), "/assets/a.jpg");
    assert_eq!(variant_output_path("/out/assets/hero.jpg", 768, "webp"), "/out/assets/hero-768w.webp");
}

#[test]
fn pagination_rules_for_routes() {
    assert_eq!(pagination_rule_root("/blog/[page]/"), "blog");
    assert_eq!(pagination_rule_root("posts"), "posts");
    let r = PaginationRule { route: "blog/[page]".into(), ..PaginationRule::default() };
    assert!(pagination_rule_matches_route(&r, "blog/[page]"));
    assert!(pagination_rule_matches_route(&r, "blog/x/[page]"));
    assert!(!pagination_rule_matches_route(&r, "blogs/[page]"));
    let any = PaginationRule { route: String::new(), ..PaginationRule::default() };
    assert!(pagination_rule_matches_route(&any, "a/[page]"));
    let rules = vec![PaginationRule { route: "docs".into(), ..PaginationRule::default() }, r];
    assert_eq!(pagination_for(&rules, "blog/[page]"), Some(1));
    assert_eq!(pagination_for(&rules, "other"), None);
    assert_eq!(pagination_listing_route("blog/[page]", "x/[page]/y", "page"), "blog/[page]");
    assert_eq!(pagination_listing_route("blog", "blog/[n]/extra", "n"), "blog/[n]");
}

#[test]
fn replace_with_empty_pattern_surrounds_each_char() {
    assert_eq!(statica::text::replace_str("abc", "", "x"), "xaxbxcx");
    assert_eq!(statica::text::replace_str("", "", "x"), "x");
    assert_eq!(statica::text::replace_str("a-b-c", "-", "+"), "a+b+c");
}
