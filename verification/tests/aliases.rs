use statica::aliases::{join_alias, resolve_local_href, resolve_path, AliasOptions, LocalAlias, UrlAlias};
use std::path::PathBuf;

#[test]
fn resolves_url_alias_with_query_path() {
    let mut aliases = AliasOptions::default();
    aliases.insert_url("fonts", UrlAlias::new("https://fonts.googleapis.com/css2"));
    let r = aliases
        .parse("@fonts/?family=Outfit:wght@100..900&display=swap")
        .unwrap();
    assert_eq!(r.base(), "https://fonts.googleapis.com/css2");
    assert_eq!(r.tail, "?family=Outfit:wght@100..900&display=swap");
    assert_eq!(
        join_alias(r.base(), r.tail),
        "https://fonts.googleapis.com/css2?family=Outfit:wght@100..900&display=swap"
    );
}

#[test]
fn resolve_local_href_alias_paths() {
    let site = "/site";
    let page = "/site/[locale]";
    assert_eq!(
        PathBuf::from(resolve_local_href(site, page, "ui/button.html")),
        PathBuf::from("/site/ui/button.html")
    );
    assert_eq!(
        PathBuf::from(resolve_local_href(site, page, "./post-card.html")),
        PathBuf::from("/site/[locale]/post-card.html")
    );
    let mut aliases = AliasOptions::default();
    aliases.insert_path("ui", LocalAlias::new("ui"));
    let resolved = resolve_path("@ui/button.html", &aliases, None, "href").unwrap();
    assert_eq!(resolved, "ui/button.html");
    assert_eq!(
        PathBuf::from(resolve_local_href(site, page, &resolved)),
        PathBuf::from("/site/ui/button.html")
    );
}

#[test]
fn resolves_url_alias_without_leading_question() {
    let mut aliases = AliasOptions::default();
    aliases.insert_url("fonts", UrlAlias::new("https://fonts.googleapis.com/css2"));
    let r = aliases
        .parse("@fonts/family=Outfit:wght@400&display=swap")
        .unwrap();
    assert_eq!(
        join_alias(r.base(), r.tail),
        "https://fonts.googleapis.com/css2?family=Outfit:wght@400&display=swap"
    );
}

#[test]
fn joins_local_alias_paths() {
    let mut aliases = AliasOptions::default();
    aliases.insert_path("fonts", LocalAlias::new("./assets/fonts"));
    let r = aliases.parse("@fonts/outfit.css").unwrap();
    assert_eq!(join_alias(r.base(), r.tail), "./assets/fonts/outfit.css");
}

#[test]
fn resolve_path_passes_through_plain_paths() {
    let aliases = AliasOptions::default();
    assert_eq!(
        resolve_path("./app.js", &aliases, None, "src").unwrap(),
        "./app.js"
    );
}
