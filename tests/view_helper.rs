use salmon::view_helper::{build_full_url, convert_to_iso8601, UrlError};

#[test]
fn test_build_full_url() {
    assert_eq!(
        build_full_url("https://example.com", "/foo/bar.jpg").unwrap(),
        "https://example.com/foo/bar.jpg"
    );
    assert_eq!(
        build_full_url("https://example.com/", "/foo/bar.jpg").unwrap(),
        "https://example.com/foo/bar.jpg"
    );
    assert_eq!(
        build_full_url("https://example.com/", "foo/bar.jpg").unwrap(),
        "https://example.com/foo/bar.jpg"
    );
    assert_eq!(
        build_full_url("https://example.com", "foo/bar.jpg").unwrap(),
        "https://example.com/foo/bar.jpg"
    );
}

#[test]
fn full_url_needs_a_base_url() {
    assert_eq!(Err(UrlError::Unresolvable), build_full_url("not a url", "/a.png"));
}

#[test]
fn iso8601_of_a_date() {
    assert_eq!(
        Some("2019-06-23T00:00:00+00:00".to_string()),
        convert_to_iso8601("2019-06-23")
    );
    assert_eq!(None, convert_to_iso8601("2019-02-30"));
    assert_eq!(None, convert_to_iso8601("yesterday"));
}
