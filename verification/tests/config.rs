use statica::cli::ConfigCli;
use statica::cmd::util::{load_project, SiteRoot};
use statica::config::{parse_bool, parse_pagination_spec, pipe_list, StaticaConfig};
use statica::env::{apply, EnvConfig};

#[test]
fn apply_cli_i18n() {
    let mut cfg = StaticaConfig::default();
    let cli = ConfigCli {
        i18n: Some("locales=en|pt,default=en".into()),
        ..ConfigCli::default()
    };
    cfg.apply_cli(&cli).unwrap();
    assert!(cfg.i18n.enabled);
    assert_eq!(cfg.i18n.locales, vec!["en", "pt"]);
    assert_eq!(cfg.i18n.default, "en");
}

#[test]
fn apply_cli_overrides() {
    let mut cfg = StaticaConfig::default();
    let cli = ConfigCli {
        process: Some(String::new()),
        no_sitemap: true,
        rss: Some("title=T,limit=3,collections=posts|notes".into()),
        site_url: Some("https://ex.com".into()),
        pagination: vec!["route=blog/[page],page_size=2,sort_desc=true,index=true".into()],
        emit: Some("strip_data=false".into()),
        preview: Some("port=9000,debounce_ms=50".into()),
        ..ConfigCli::default()
    };
    cfg.apply_cli(&cli).unwrap();
    assert!(cfg.process.enabled);
    assert!(!cfg.sitemap.enabled);
    assert!(cfg.rss.enabled);
    assert_eq!(cfg.rss.title, "T");
    assert_eq!(cfg.rss.limit, 3);
    assert_eq!(cfg.rss.collections, vec!["posts", "notes"]);
    assert!(!cfg.emit.strip_data);
    assert_eq!(cfg.preview.port, 9000);
    assert_eq!(cfg.site_url, "https://ex.com");
    assert_eq!(cfg.pagination.len(), 1);
    assert_eq!(cfg.pagination[0].page_size, 2);
    assert!(cfg.pagination[0].index);
}

#[test]
fn defaults_match_documented_values() {
    let cfg = StaticaConfig::default();
    assert!(cfg.emit.strip_data);
    assert_eq!(cfg.preview.host, "0.0.0.0");
    assert_eq!(cfg.preview.port, 4321);
    assert_eq!(cfg.out_dir, ".website");
    assert!(!cfg.minify.enabled && cfg.minify.html);
    assert_eq!(cfg.forms.endpoint, "https://formspree.io/f/{id}");
    assert_eq!(cfg.asset_dirs, vec!["public", "assets", "static"]);
    assert_eq!(cfg.sitemap.urls_per_file, 50_000);
    assert_eq!(cfg.rss.limit, 50);
    assert_eq!(cfg.i18n.locales, vec!["en"]);
    assert_eq!(cfg.forms.provider, "formspree");
}

#[test]
fn spec_without_equals_is_rejected() {
    let mut cfg = StaticaConfig::default();
    let cli = ConfigCli { emit: Some("strip_data".into()), ..ConfigCli::default() };
    let err = cfg.apply_cli(&cli).unwrap_err();
    assert!(matches!(err, statica::error::Error::Msg(ref m) if m == "SPEC needs key=value, got `strip_data`"));
}

#[test]
fn unknown_key_stops_after_earlier_keys() {
    let mut cfg = StaticaConfig::default();
    let cli = ConfigCli { emit: Some("strip_data=no, bogus=1, dedupe_styles=false".into()), ..ConfigCli::default() };
    let err = cfg.apply_cli(&cli).unwrap_err();
    assert!(matches!(err, statica::error::Error::Msg(ref m) if m == "unknown emit key `bogus`"));
    assert!(!cfg.emit.strip_data);
    assert!(cfg.emit.dedupe_styles);
}

#[test]
fn invalid_numbers_and_bools_report_the_value() {
    let mut cfg = StaticaConfig::default();
    let cli = ConfigCli { preview: Some("port=70000".into()), ..ConfigCli::default() };
    let err = cfg.apply_cli(&cli).unwrap_err();
    assert!(matches!(err, statica::error::Error::Msg(ref m) if m == "invalid port `70000`"));
    assert_eq!(parse_bool(" YES "), Ok(true));
    assert_eq!(parse_bool("Off"), Ok(false));
    assert_eq!(parse_bool("maybe"), Err("invalid bool `maybe` (use true/false)".to_string()));
}

#[test]
fn pagination_requires_route() {
    assert_eq!(
        parse_pagination_spec("page_size=3").unwrap_err(),
        "pagination SPEC requires route=…"
    );
    let p = parse_pagination_spec("route=posts/[page], per_page = 4").unwrap();
    assert_eq!(p.route, "posts/[page]");
    assert_eq!(p.page_size, 4);
    assert_eq!(p.limit, 0);
}

#[test]
fn disable_flags_win_over_specs() {
    let mut cfg = StaticaConfig::default();
    let cli = ConfigCli {
        no_rss: true,
        rss: Some("title=ignored".into()),
        host: Some("127.0.0.1".into()),
        port: Some(8080),
        no_clean: true,
        ..ConfigCli::default()
    };
    cfg.apply_cli(&cli).unwrap();
    assert!(!cfg.rss.enabled);
    assert_eq!(cfg.rss.title, "");
    assert_eq!(cfg.preview.host, "127.0.0.1");
    assert_eq!(cfg.preview.port, 8080);
    assert!(!cfg.clean);
}

#[test]
fn pipe_lists_drop_blank_items() {
    assert_eq!(pipe_list(" a | |b|"), vec!["a", "b"]);
}

#[test]
fn out_dir_path_joins_relative_dirs() {
    let mut cfg = StaticaConfig::default();
    assert_eq!(cfg.out_dir_path("/site"), "/site/.website");
    cfg.out_dir = "/abs/out".into();
    assert_eq!(cfg.out_dir_path("/site"), "/abs/out");
}

#[test]
fn default_toml_documents_defaults() {
    let t = StaticaConfig::default_toml();
    assert!(t.starts_with("# statica.toml"));
    let v: toml::Value = toml::from_str(&t).expect("default toml parses");
    let d = StaticaConfig::default();
    assert_eq!(v["emit"]["strip_data"].as_bool(), Some(true));
    assert_eq!(v["emit"]["strip_data"].as_bool(), Some(d.emit.strip_data));
    assert_eq!(v["sitemap"]["enabled"].as_bool(), Some(false));
    assert_eq!(v["sitemap"]["enabled"].as_bool(), Some(d.sitemap.enabled));
    assert_eq!(v["rss"]["enabled"].as_bool(), Some(false));
    assert_eq!(v["rss"]["enabled"].as_bool(), Some(d.rss.enabled));
    assert_eq!(v["preview"]["host"].as_str(), Some("0.0.0.0"));
    assert_eq!(v["preview"]["host"].as_str(), Some(d.preview.host.as_str()));
    assert_eq!(v["preview"]["port"].as_integer(), Some(4321));
    assert_eq!(v["out_dir"].as_str(), Some(d.out_dir.as_str()));
    assert_eq!(v["minify"]["enabled"].as_bool(), Some(d.minify.enabled));
    assert_eq!(v["aliases"]["symbol"].as_str(), Some(d.aliases.symbol.as_str()));
    assert!(v["aliases"]["paths"].as_table().map_or(false, |t| t.is_empty()));
}

#[test]
fn env_files_override_forms_ids() {
    let mut cfg = StaticaConfig::default();
    cfg.forms.enabled = true;
    cfg.forms.ids.insert("contact", "from-config");
    let env_cfg = EnvConfig::default();
    let set = apply(&env_cfg, &[], Some("FORMS_CONTACT_ID=from-dotenv\n"), Some("FORMS_CONTACT_ID=from-devvars\n"));
    let lookup = |key: &str| set.iter().rev().find(|(k, _)| k == key).map(|(_, v)| v.clone());
    let keys = cfg.forms.env_keys();
    assert_eq!(keys, vec!["FORMS_ENDPOINT".to_string(), "FORMS_CONTACT_ID".to_string()]);
    let values: Vec<Option<String>> = keys.iter().map(|k| lookup(k)).collect();
    cfg.apply_env(&values);
    assert_eq!(cfg.forms.ids.get("contact").map(String::as_str), Some("from-devvars"));
    assert_eq!(cfg.forms.endpoint, "https://formspree.io/f/{id}");
}

#[test]
fn form_env_keys_uppercase_and_underscore() {
    let mut cfg = StaticaConfig::default();
    cfg.forms.ids.insert("news-letter", "a");
    cfg.forms.ids.insert("Mixed9", "b");
    assert_eq!(
        cfg.forms.env_keys(),
        vec!["FORMS_ENDPOINT".to_string(), "FORMS_NEWS_LETTER_ID".to_string(), "FORMS_MIXED9_ID".to_string()]
    );
}

#[test]
fn empty_env_value_keeps_configured_id() {
    let mut cfg = StaticaConfig::default();
    cfg.forms.ids.insert("contact", "keep");
    cfg.apply_env(&[Some("https://example.com/post".into()), Some(String::new())]);
    assert_eq!(cfg.forms.ids.get("contact").map(String::as_str), Some("keep"));
    assert_eq!(cfg.forms.endpoint, "https://example.com/post");
}

#[test]
fn build_options_ignore_the_output_directory() {
    let mut cfg = StaticaConfig::default();
    cfg.out_dir = "build/site".into();
    let opts = cfg.clone().to_build_options("/p");
    assert_eq!(opts.out_dir, "/p/build/site");
    assert_eq!(opts.ignore_dirs.last().map(String::as_str), Some("site"));
    assert_eq!(opts.ignore_dirs.len(), cfg.ignore_dirs.len() + 1);
    let opts = StaticaConfig::default().to_build_options("/p");
    assert_eq!(opts.ignore_dirs, StaticaConfig::default().ignore_dirs);
    assert!(!opts.verbose);
}

#[test]
fn project_subdir_from_config() {
    let mut cfg = StaticaConfig::default();
    cfg.project = " site ".into();
    let (root, cfg) = load_project("/r", cfg, &ConfigCli::default()).unwrap();
    assert_eq!(root, SiteRoot::Project("/r/site".into()));
    assert_eq!(cfg.project, " site ");
}

#[test]
fn cli_project_overrides_toml() {
    let mut cfg = StaticaConfig::default();
    cfg.project = "missing".into();
    let cli = ConfigCli { project: Some("site".into()), ..ConfigCli::default() };
    let (root, _) = load_project("/r", cfg, &cli).unwrap();
    assert_eq!(root, SiteRoot::Project("/r/site".into()));
    let (root, _) = load_project("/r", StaticaConfig::default(), &ConfigCli::default()).unwrap();
    assert_eq!(root, SiteRoot::ConfigDir("/r".into()));
}

#[test]
fn minify_flags_toggle_the_final_pass() {
    let mut cfg = StaticaConfig::default();
    cfg.apply_cli(&ConfigCli { minify: Some(String::new()), ..ConfigCli::default() }).unwrap();
    assert!(cfg.minify.enabled);
    cfg.apply_cli(&ConfigCli { minify: Some("js=false".into()), ..ConfigCli::default() }).unwrap();
    assert!(cfg.minify.enabled && !cfg.minify.js);
    cfg.apply_cli(&ConfigCli { no_minify: true, minify: Some(String::new()), ..ConfigCli::default() }).unwrap();
    assert!(!cfg.minify.enabled);
    assert!(cfg.apply_cli(&ConfigCli { minify: Some("gzip=true".into()), ..ConfigCli::default() }).is_err());
}

#[test]
fn default_toml_shows_no_alias_paths() {
    let text = StaticaConfig::default_toml();
    let section = text.split("[aliases.paths]").nth(1).unwrap().split("\n\n").next().unwrap();
    assert!(section.lines().all(|l| l.trim().is_empty() || l.trim_start().starts_with('#')));
    assert!(text.contains("out_dir = \".website\""));
    assert!(text.contains("[minify]"));
}

#[test]
fn maps_feeds() {
    let mut cfg = StaticaConfig::default();
    cfg.site_url = "https://example.com".into();
    cfg.rss.enabled = true;
    cfg.rss.title = "Blog".into();
    let opts = cfg.to_build_options("/tmp/site");
    assert_eq!(opts.site_url, "https://example.com");
    assert!(!opts.sitemap.enabled);
    assert!(opts.rss.enabled);
    assert_eq!(opts.rss.title, "Blog");
}
