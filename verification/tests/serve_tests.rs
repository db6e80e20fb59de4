use candy::web::serve::{
    calculate_etag, check_if_none_match, dir_entry, render_list_html, resolve_parent_path, ByteUnit, DirList,
};

#[test]
fn test_byte_unit_formatting() {
    assert_eq!(ByteUnit(0).to_string(), "0 B");
    assert_eq!(ByteUnit(500).to_string(), "500 B");
    assert_eq!(ByteUnit(1024).to_string(), "1024 B");
    assert_eq!(ByteUnit(1500).to_string(), "1.46 KB");
    assert_eq!(ByteUnit(1024 * 1024).to_string(), "1024.00 KB");
    assert_eq!(ByteUnit(1024 * 1024 + 500000).to_string(), "1.48 MB");
    assert_eq!(ByteUnit(1024 * 1024 * 1024).to_string(), "1024.00 MB");
}

#[test]
fn byte_unit_upper_ranges() {
    assert_eq!(ByteUnit(1024 * 1024 * 1024 + 1).to_string(), "1.00 TB");
    assert_eq!(ByteUnit(1024u64 * 1024 * 1024 * 1024).to_string(), "1024.00 TB");
    assert_eq!(ByteUnit(1024u64 * 1024 * 1024 * 1024 + 1).to_string(), "1099511627777 B");
    assert_eq!(ByteUnit(1025).to_string(), "1.00 KB");
    assert_eq!(ByteUnit(2047).to_string(), "2.00 KB");
}

#[test]
fn test_resolve_parent_path_with_path() {
    assert_eq!(resolve_parent_path("/assets/css/styles.css", Some("assets/css/styles.css")), "/");
}

#[test]
fn test_resolve_parent_path_with_subpath() {
    assert_eq!(resolve_parent_path("/docs/rust/guide.html", Some("guide.html")), "/docs/rust/");
}

#[test]
fn test_resolve_parent_path_without_path() {
    assert_eq!(resolve_parent_path("/docs", None), "/docs/");
}

#[test]
fn test_resolve_parent_path_without_path_ends_with_slash() {
    assert_eq!(resolve_parent_path("/docs/", None), "/docs/");
}

#[test]
fn listing_rows() {
    let list = vec![
        DirList {
            name: "sub".to_string(),
            path: "/sub/".to_string(),
            is_dir: true,
            size: ByteUnit(4096),
            last_modified: "2024-01-01 00:00:00".to_string(),
        },
        DirList {
            name: "a.txt".to_string(),
            path: "/a.txt".to_string(),
            is_dir: false,
            size: ByteUnit(12),
            last_modified: "2024-01-02 00:00:00".to_string(),
        },
    ];
    let html = render_list_html("/", list);
    assert!(html.contains("<title>Index of /</title>"));
    assert!(html.contains("<h1>Index of /</h1>"));
    assert!(html.contains(
        "<tr><td><a href=\"/sub/\">sub/</a></td><td>2024-01-01 00:00:00</td><td>4.00 KB</td></tr><tr><td><a href=\"/a.txt\">a.txt</a></td><td>2024-01-02 00:00:00</td><td>12 B</td></tr>"
    ));
    assert!(html.starts_with("\n<!DOCTYPE html>"));
}

#[test]
fn test_check_if_none_match() {
    let etag = "W/\"12345\"".to_string();
    let (_status, not_modified) = check_if_none_match(Some("\"12345\""), &etag, 200);
    assert!(!not_modified);
}

#[test]
fn test_check_if_none_match_missing() {
    let etag = "W/\"12345\"".to_string();
    let (_, not_modified) = check_if_none_match(None, &etag, 200);
    assert!(!not_modified);
}

#[test]
fn check_if_none_match_exact_tag_gives_not_modified() {
    assert_eq!(check_if_none_match(Some("W/\"12345\""), "W/\"12345\"", 200), (304, true));
    assert_eq!(check_if_none_match(Some("W/\"1234\""), "W/\"12345\"", 206), (206, false));
}

#[test]
fn calculate_etag_is_weak_md5_of_path_time_and_length() {
    let expected = format!("W/\"{:x}\"", md5::compute("/srv/a.txt-1700000000-42"));
    assert_eq!(calculate_etag("/srv/a.txt", 1700000000, 42), expected);
    assert_ne!(calculate_etag("/srv/a.txt", 1700000000, 43), expected);
}

#[test]
fn dir_entry_links_relative_to_root() {
    let d = dir_entry("/srv/www/", "css".to_string(), "/srv/www/assets/css", true, 4096, "2024-01-01 00:00:00".to_string())
        .unwrap();
    assert_eq!(d.path, "./assets/css/");
    assert_eq!(d.name, "css");
    assert!(d.is_dir);
    assert_eq!(d.size.0, 4096);
    let f = dir_entry("/srv/www", "a.txt".to_string(), "/srv/www/a.txt", false, 1, String::new()).unwrap();
    assert_eq!(f.path, ".//a.txt");
    assert!(dir_entry("/srv/www", "x".to_string(), "/etc/x", false, 1, String::new()).is_none());
}
