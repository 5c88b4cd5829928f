use statica::content::{loaded_kind, text_content, DataSet};
use statica::content::{glob_base_and_pattern, is_glob_href, DataKind};
use statica::fragment::{content_cache_key, hash_prefix_hex, inferred_data_kind, scope_id, short_hash, FragmentFile, FragmentId};

#[test]
fn data_kinds() {
    assert_eq!(DataKind::from_extension("ndjson"), Some(DataKind::Jsonl));
    assert_eq!(DataKind::from_path("content/a.md"), Some(DataKind::Markdown));
    assert_eq!(DataKind::from_path("content/a"), None);
    assert_eq!(DataKind::from_type_attr(" Text/CSV; charset=utf-8"), Some(DataKind::Csv));
    assert_eq!(DataKind::from_type_attr("application/xml"), None);
    assert_eq!(inferred_data_kind("posts/*.md"), DataKind::Glob);
    assert_eq!(inferred_data_kind("posts.csv"), DataKind::Csv);
    assert_eq!(inferred_data_kind("posts.unknown"), DataKind::Json);
    assert!(is_glob_href("a/{b,c}.json"));
}

#[test]
fn glob_split() {
    assert_eq!(
        glob_base_and_pattern("/site", "/site/blog", "../content/posts/*.md"),
        ("/site/content/posts".to_string(), "*.md".to_string())
    );
    assert_eq!(
        glob_base_and_pattern("/site", "/site/blog", "./content/*.md"),
        ("/site/blog/content".to_string(), "*.md".to_string())
    );
    assert_eq!(
        glob_base_and_pattern("/site", "/site/blog", "*/index.json"),
        ("/site/blog".to_string(), "*/index.json".to_string())
    );
}

#[test]
fn hashes_and_ids() {
    assert_eq!(short_hash(""), "e3b0c442");
    assert_eq!(short_hash("abc"), "ba7816bf");
    assert_eq!(scope_id("card", "abc"), "card-ba7816bf");
    assert_eq!(hash_prefix_hex(&[0x00, 0x0f, 0xa0, 0xff, 0x12]), "000fa0ff");
    assert_eq!(FragmentFile::new("/x/card.html".into()).as_path(), "/x/card.html");
    assert_eq!(FragmentId::new("a".into()), FragmentId::new("a".into()));
}

#[test]
fn cache_keys_are_normalized() {
    assert_eq!(content_cache_key("/site", "/site/blog", "../data/x.json"), "/site/data/x.json");
    assert_eq!(content_cache_key("/site", "/site/blog", "/abs/./y.json"), "/abs/y.json");
}

fn err_message(e: statica::error::Error) -> String {
    match e {
        statica::error::Error::Diag(d) => d.message,
        statica::error::Error::Msg(m) => m,
    }
}

#[test]
fn loads_plain_text_as_lines() {
    assert_eq!(statica::content::parse_text_lines("hello\n\nworld\n"), vec!["hello".to_string(), "world".to_string()]);
    assert_eq!(statica::content::parse_text_lines("  a \r\n\t\r\n b"), vec!["a".to_string(), "b".to_string()]);
}

#[test]
fn explicit_type_parses_extensionless_text() {
    assert_eq!(
        statica::content::data_kind_for("/site/notes", Some(statica::content::DataKind::Text)).unwrap(),
        statica::content::DataKind::Text
    );
    assert_eq!(statica::content::data_kind_for("/site/a.ndjson", None).unwrap(), statica::content::DataKind::Jsonl);
    assert_eq!(
        err_message(statica::content::data_kind_for("/site/a.xml", None).unwrap_err()),
        "unsupported data file extension `.xml`"
    );
    assert_eq!(
        err_message(statica::content::data_kind_for("/site/notes", None).unwrap_err()),
        "unsupported data file extension `.`"
    );
}

#[test]
fn loads_jsonl_as_array() {
    let lines = statica::content::jsonl_lines("{\"slug\":\"a\"}\n\n {\"slug\":\"b\",\"n\":2}\n");
    assert_eq!(lines, vec![(1, "{\"slug\":\"a\"}".to_string()), (3, "{\"slug\":\"b\",\"n\":2}".to_string())]);
}

#[test]
fn rejects_invalid_jsonl_line() {
    let lines = statica::content::jsonl_lines("{\"slug\":\"a\"}\n{bad}\n");
    assert!(statica::content::jsonl_line_message(lines[1].0, "key must be a string").contains("line 2"));
}

#[test]
fn loads_csv_as_array_of_objects() {
    let headers = vec!["slug".to_string(), "name".to_string()];
    statica::content::validate_csv_headers(&headers, "people.csv").unwrap();
    let rows = vec![vec!["ada".to_string(), "Ada".to_string()], vec!["alan".to_string(), "Alan".to_string()]];
    let records = statica::content::csv_records(&headers, &rows);
    let s = |t: &str| statica::funnel::value::Value::String(t.into());
    assert_eq!(
        records,
        vec![
            statica::funnel::value::Value::Object(vec![("slug".into(), s("ada")), ("name".into(), s("Ada"))]),
            statica::funnel::value::Value::Object(vec![("slug".into(), s("alan")), ("name".into(), s("Alan"))]),
        ]
    );
}

#[test]
fn rejects_duplicate_csv_headers() {
    let err = statica::content::validate_csv_headers(&["slug".to_string(), "slug".to_string()], "bad.csv").unwrap_err();
    assert!(err_message(err).contains("duplicate CSV header"));
    let err = statica::content::validate_csv_headers(&[], "bad.csv").unwrap_err();
    assert_eq!(err_message(err), "CSV data needs a header row");
    let err = statica::content::validate_csv_headers(&["a".to_string(), String::new()], "bad.csv").unwrap_err();
    assert_eq!(err_message(err), "CSV headers cannot be empty");
}

#[test]
fn loaded_content_reports_its_format() {
    assert_eq!(loaded_kind("/s/a.csv", None), DataKind::Csv);
    assert_eq!(loaded_kind("/s/a.weird", None), DataKind::Json);
    assert_eq!(loaded_kind("/s/a.csv", Some(DataKind::Text)), DataKind::Text);
    let loaded = text_content("x\n\n y \n");
    assert_eq!(loaded.kind, DataKind::Text);
    match loaded.data {
        DataSet::Lines(l) => assert_eq!(l, vec!["x".to_string(), "y".to_string()]),
        other => panic!("unexpected: {other:?}"),
    }
}
