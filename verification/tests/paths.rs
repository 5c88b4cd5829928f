use statica::paths::{components_of, extension, file_name, file_stem, normalize_path, starts_with_path};

#[test]
fn components_like_std() {
    assert_eq!(components_of("/a//b/./c/"), vec!["/", "a", "b", "c"]);
    assert_eq!(components_of("./a/../b"), vec![".", "a", "..", "b"]);
    assert_eq!(components_of("a/./b"), vec!["a", "b"]);
    assert!(starts_with_path("/etc/passwd", "/etc"));
    assert!(!starts_with_path("/etc/foo.rs", "/etc/foo"));
}

#[test]
fn names_stems_and_extensions() {
    assert_eq!(file_name("/a/b.tar.gz").as_deref(), Some("b.tar.gz"));
    assert_eq!(file_name("/a/..").as_deref(), None);
    assert_eq!(extension("/a/b.tar.gz").as_deref(), Some("gz"));
    assert_eq!(file_stem("/a/b.tar.gz").as_deref(), Some("b.tar"));
    assert_eq!(extension("/a/.bashrc").as_deref(), None);
    assert_eq!(file_stem("/a/.bashrc").as_deref(), Some(".bashrc"));
}

#[test]
fn lexical_normalization() {
    assert_eq!(normalize_path("/site/pages/../content/./posts.json"), "/site/content/posts.json");
    assert_eq!(normalize_path("/../x"), "/x");
    assert_eq!(normalize_path("a/../../b"), "b");
}
