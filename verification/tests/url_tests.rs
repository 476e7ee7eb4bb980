use saba_core::url::Url;

/// Expects a successful parse and checks every extracted component.
fn assert_parsed(raw: &str, host: &str, port: &str, path: &str, searchpart: &str) {
    match Url::new(raw.to_string()).parse() {
        Ok(parsed) => {
            assert_eq!(host.to_string(), parsed.host());
            assert_eq!(port.to_string(), parsed.port());
            assert_eq!(path.to_string(), parsed.path());
            assert_eq!(searchpart.to_string(), parsed.searchpart());
        }
        Err(e) => panic!("expected a successful parse, got error: {}", e),
    }
}

#[test]
fn test_url_host() {
    assert_parsed("http://example.com", "example.com", "80", "", "");
}

#[test]
fn test_url_host_port() {
    assert_parsed("http://example.com:8888", "example.com", "8888", "", "");
}

#[test]
fn test_url_host_port_path() {
    assert_parsed(
        "http://example.com:8888/index.html",
        "example.com",
        "8888",
        "index.html",
        "",
    );
}

#[test]
fn test_url_host_path() {
    assert_parsed(
        "http://example.com/index.html",
        "example.com",
        "80",
        "index.html",
        "",
    );
}

#[test]
fn test_url_host_port_path_searchpart() {
    assert_parsed(
        "http://example.com:8888/index.html?a=123&b=456",
        "example.com",
        "8888",
        "index.html",
        "a=123&b=456",
    );
}

#[test]
fn test_no_scheme() {
    let url = "example.com".to_string();
    let expected = Err("Only HTTP scheme is supported".to_string());
    assert_eq!(expected, Url::new(url).parse().map(|u| u.host()));
}

#[test]
fn test_unsupported_scheme() {
    let url = "https://example.com".to_string();
    let expected = Err("Only HTTP scheme is supported".to_string());
    assert_eq!(expected, Url::new(url).parse().map(|u| u.host()));
}

#[test]
fn test_empty_input_fails() {
    match Url::new(String::new()).parse() {
        Ok(_) => panic!("expected the empty string to be rejected"),
        Err(e) => assert_eq!("Only HTTP scheme is supported".to_string(), e),
    }
}

#[test]
fn test_true_prefix_always_succeeds() {
    assert!(Url::new("http://".to_string()).parse().is_ok());
    assert!(Url::new("http://h".to_string()).parse().is_ok());
    assert!(Url::new("http://:/?".to_string()).parse().is_ok());
}

#[test]
fn test_bare_scheme_gives_empty_components() {
    assert_parsed("http://", "", "80", "", "");
}

#[test]
fn test_scheme_substring_accepted_without_stripping() {
    // The scheme check is a substring test, while stripping only removes a
    // true prefix: an embedded scheme is accepted and left in place.
    assert_parsed("xhttp://host/path", "xhttp", "", "/host/path", "");
}

#[test]
fn test_query_without_path_stays_in_host() {
    // A '?' before any '/' is not treated as a query delimiter.
    assert_parsed("http://example.com?a=1", "example.com?a=1", "80", "", "");
}

#[test]
fn test_default_port_without_colon() {
    assert_parsed("http://host/p:q", "host", "80", "p:q", "");
}

#[test]
fn test_parse_twice_yields_identical_fields() {
    let mut url = Url::new("http://example.com:8888/index.html?a=123".to_string());
    let first = url.parse().expect("first parse should succeed");
    let second = url.parse().expect("second parse should succeed");
    assert_eq!(first.host(), second.host());
    assert_eq!(first.port(), second.port());
    assert_eq!(first.path(), second.path());
    assert_eq!(first.searchpart(), second.searchpart());
}

#[test]
fn test_port_is_literal_digits_after_colon() {
    assert_parsed("http://h:0080/x", "h", "0080", "x", "");
}

#[test]
fn test_searchpart_takes_everything_after_first_question_mark() {
    assert_parsed("http://h/p?a=1?b=2", "h", "80", "p", "a=1?b=2");
}
