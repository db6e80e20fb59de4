use candy::web::route_serve::{select_host, serve_answer, serve_candidates, PathKind, ServeAction, ServeStep};

fn candidates(root: Option<&str>, index: &[&str], tail: Option<&str>) -> Option<(String, Vec<String>)> {
    let index: Vec<String> = index.iter().map(|s| s.to_string()).collect();
    match serve_candidates(root, &index, tail) {
        ServeStep::ErrorPage => None,
        ServeStep::Candidates(b, f) => Some((b, f)),
    }
}

#[test]
fn candidates_for_files_and_directories() {
    assert_eq!(candidates(None, &[], None), None);
    assert_eq!(
        candidates(Some("./html"), &[], None),
        Some(("./html".to_string(), vec!["./html/index.html".to_string()]))
    );
    assert_eq!(
        candidates(Some("./html"), &["index.html", "index.txt"], Some("docs")),
        Some((
            "./html/docs".to_string(),
            vec!["./html/docs/index.html".to_string(), "./html/docs/index.txt".to_string()]
        ))
    );
    assert_eq!(
        candidates(Some("./html"), &["a.html"], Some("css/site.css")),
        Some(("./html".to_string(), vec!["./html/css/site.css".to_string()]))
    );
}

#[test]
fn answers_after_lookup() {
    assert_eq!(serve_answer("./html", "./html", false, "/", Some(1), PathKind::Missing), ServeAction::SendFile(1));
    assert_eq!(
        serve_answer("./html", "./html/docs", true, "/docs/", None, PathKind::Directory),
        ServeAction::ListDirectory("/docs".to_string())
    );
    assert_eq!(serve_answer("./html", "./html/x", true, "/x/", None, PathKind::Missing), ServeAction::NotFoundPage);
    assert_eq!(
        serve_answer("./html", "./html/docs", false, "/docs", None, PathKind::Directory),
        ServeAction::Redirect("/docs/".to_string())
    );
    assert_eq!(serve_answer("./html", "./html", false, "/a.txt", None, PathKind::NotDirectory), ServeAction::NotFoundPage);
    assert_eq!(
        serve_answer("./html", "./html", true, "/a.txt", None, PathKind::NotDirectory),
        ServeAction::ListDirectory("".to_string())
    );
}

#[test]
fn host_selection_prefers_exact_then_case_then_default() {
    let names = vec![None, Some("Example.com".to_string()), Some("example.com".to_string())];
    assert_eq!(select_host(&names, "example.com"), Some(2));
    let names = vec![None, Some("Example.com".to_string())];
    assert_eq!(select_host(&names, "example.com"), Some(1));
    assert_eq!(select_host(&names, "other.org"), Some(0));
    let names = vec![Some("a.org".to_string())];
    assert_eq!(select_host(&names, "b.org"), None);
}
