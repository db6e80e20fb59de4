use candy::web::domain::check_domain;

#[test]
fn any_host_when_no_domain_is_configured() {
    assert!(check_domain(None, None));
    assert!(check_domain(None, Some(b"whatever")));
}

#[test]
fn host_matches_without_port_and_case() {
    assert!(check_domain(Some("example.com"), Some(b"Example.COM:8080")));
    assert!(check_domain(Some("Example.com"), Some(b"example.com")));
}

#[test]
fn other_or_missing_host_is_refused() {
    assert!(!check_domain(Some("example.com"), Some(b"other.com")));
    assert!(!check_domain(Some("example.com"), None));
    assert!(!check_domain(Some("example.com"), Some(&[0xff])));
    assert!(!check_domain(Some("example.com"), Some(b":example.com")));
}
