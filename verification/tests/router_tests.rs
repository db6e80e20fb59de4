use candy::router::{
    contains_traversal, get_mime_type, normalize_url_path, path_is_within, resolve_path,
    url_decode, PathFacts, ResolveResult,
};

#[test]
fn test_get_mime_type() {
    assert_eq!(get_mime_type("test.html"), "text/html; charset=utf-8");
    assert_eq!(get_mime_type("test.css"), "text/css; charset=utf-8");
    assert_eq!(get_mime_type("test.js"), "application/javascript; charset=utf-8");
    assert_eq!(get_mime_type("test.png"), "image/png");
    assert_eq!(get_mime_type("test.unknown"), "application/octet-stream");
}

#[test]
fn mime_type_edge_cases() {
    assert_eq!(get_mime_type(".bashrc"), "application/octet-stream");
    assert_eq!(get_mime_type("dir.d/file"), "application/octet-stream");
    assert_eq!(get_mime_type("a/b.tar.zip"), "application/zip");
    assert_eq!(get_mime_type("/srv/www/index.HTML"), "application/octet-stream");
    assert_eq!(get_mime_type("x.jpeg"), "image/jpeg");
}

#[test]
fn decoding_and_normalizing() {
    assert_eq!(url_decode("a%20b"), "a b");
    assert_eq!(url_decode("%zz"), "%zz");
    assert_eq!(url_decode("50%"), "50%");
    assert_eq!(url_decode("%4"), "\u{4}");
    assert_eq!(normalize_url_path("/docs/a%2Fb.html?x=1"), "docs/a/b.html");
    assert_eq!(normalize_url_path("///x"), "x");
}

#[test]
fn traversal_detection() {
    assert!(contains_traversal("../etc/passwd"));
    assert!(contains_traversal("a/../b"));
    assert!(!contains_traversal("a/..b/c"));
    assert!(!contains_traversal("a/b"));
}

fn facts(canonical: Option<&str>, base: Option<&str>, is_dir: bool, index: bool, exists: bool) -> PathFacts {
    PathFacts {
        canonical: canonical.map(|s| s.to_string()),
        base_canonical: base.map(|s| s.to_string()),
        is_dir,
        index_exists: index,
        exists,
    }
}

#[test]
fn resolve_decisions() {
    let f = facts(Some("/srv/a.html"), Some("/srv"), false, false, true);
    assert!(matches!(resolve_path("/a.html", &f), ResolveResult::File(p) if p == "/srv/a.html"));
    assert!(matches!(resolve_path("/../a.html", &f), ResolveResult::Forbidden));
    assert!(matches!(resolve_path("/%2E%2E/a", &f), ResolveResult::Forbidden));
    let f = facts(Some("/srv2/a.html"), Some("/srv"), false, false, true);
    assert!(matches!(resolve_path("/a.html", &f), ResolveResult::Forbidden));
    let f = facts(Some("/srv/d"), Some("/srv"), true, true, true);
    assert!(matches!(resolve_path("/d", &f), ResolveResult::File(p) if p == "/srv/d/index.html"));
    let f = facts(Some("/srv/d"), Some("/srv"), true, false, true);
    assert!(matches!(resolve_path("/d", &f), ResolveResult::Directory(p) if p == "/srv/d"));
    let f = facts(None, Some("/srv"), false, false, false);
    assert!(matches!(resolve_path("/x", &f), ResolveResult::NotFound));
    let f = facts(Some("/srv/x"), None, false, false, true);
    assert!(matches!(resolve_path("/x", &f), ResolveResult::NotFound));
}

#[test]
fn within_is_by_component() {
    assert!(path_is_within("/srv/a", "/srv"));
    assert!(path_is_within("/srv", "/srv"));
    assert!(!path_is_within("/srv2", "/srv"));
    assert!(path_is_within("/x", "/"));
}
