use statica::search::{
    disambiguate_duplicate_titles, excerpt, hidden_from_search, index_href, is_generic_title,
    searchable_meta, section_for_url, strip_html, title_key_score, title_value_score, SearchOptions,
};
use statica::text::normalize_ws;

#[test]
fn title_scores() {
    assert_eq!(title_key_score("headline"), Some(100));
    assert_eq!(title_key_score("title"), Some(90));
    assert_eq!(title_key_score("file"), Some(80));
    assert_eq!(title_key_score("body"), None);
    assert!(is_generic_title(" Item  Details "));
    assert!(!is_generic_title("the item in the details page"));
    assert_eq!(title_value_score("Post 42-b is here"), 8 + 6 + 4);
    assert_eq!(title_value_score("Details"), -35);
}

#[test]
fn text_helpers() {
    assert_eq!(strip_html("<p>Hi <b>there</b></p>"), " Hi  there  ");
    assert_eq!(normalize_ws("  a \n b\t\tc "), "a b c");
    let long: String = "x".repeat(200);
    assert_eq!(excerpt(&long).chars().count(), 180);
    assert_eq!(excerpt("short"), "short");
}

#[test]
fn urls_and_sections() {
    assert_eq!(index_href("search.json"), "/search.json");
    assert_eq!(index_href("/a/search.json"), "/a/search.json");
    assert_eq!(section_for_url("/blog-posts/one/"), "blog posts");
    assert_eq!(section_for_url("/"), "home");
    assert!(searchable_meta("description"));
    assert!(searchable_meta("statica:section"));
    assert!(!searchable_meta("viewport"));
    assert!(hidden_from_search("SCRIPT"));
    assert!(!hidden_from_search("main"));
    let o = SearchOptions::default();
    assert_eq!(o.output, "search.json");
}

#[test]
fn duplicate_titles_become_urls() {
    let titles = vec!["Post".to_string(), "Post".to_string(), "Other".to_string()];
    let urls = vec!["/a/".to_string(), "/b/".to_string(), "/c/".to_string()];
    assert_eq!(disambiguate_duplicate_titles(&titles, &urls), vec!["/a/", "/b/", "Other"]);
}
