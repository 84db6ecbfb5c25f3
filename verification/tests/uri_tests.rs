use linkscan::uri::decompose_url;
use linkscan::uri::resolve_reference;
use linkscan::uri::uri_to_string;

#[test]
fn decompose_full_url() {
    let u = decompose_url("https://example.com:8080/a/b?x=1").unwrap();
    assert_eq!(u.scheme, Some("https".to_string()));
    assert_eq!(u.host, Some("example.com".to_string()));
    assert_eq!(u.authority, Some("example.com".to_string()));
    assert_eq!(u.port, Some(8080));
    assert_eq!(u.path, Some("/a/b".to_string()));
    assert_eq!(u.query, Some("x=1".to_string()));
    assert_eq!(u.fragment, None);
    assert_eq!(u.userinfo, None);
}

#[test]
fn decompose_defaults() {
    let u = decompose_url("https://example.com").unwrap();
    assert_eq!(u.scheme, Some("https".to_string()));
    assert_eq!(u.host, Some("example.com".to_string()));
    assert_eq!(u.path, Some("/".to_string()));
    assert_eq!(u.port, None);
    assert_eq!(u.query, None);
}

#[test]
fn default_port_is_elided() {
    let u = decompose_url("https://example.com:443/").unwrap();
    assert_eq!(u.port, None);
}

#[test]
fn invalid_input_is_rejected() {
    assert!(decompose_url("not a url").is_none());
    assert!(decompose_url("").is_none());
    assert!(decompose_url("/relative/only").is_none());
}

#[test]
fn round_trip_reconstruction() {
    let input = "https://example.com:8080/a/b?x=1";
    let u = decompose_url(input).unwrap();
    let rebuilt = uri_to_string(&u);
    assert_eq!(rebuilt, input);
    let again = decompose_url(rebuilt.as_str()).unwrap();
    assert_eq!(again, u);
}

#[test]
fn round_trip_with_default_port() {
    let u = decompose_url("http://example.com:80/p").unwrap();
    let rebuilt = uri_to_string(&u);
    assert_eq!(rebuilt, "http://example.com/p");
    let again = decompose_url(rebuilt.as_str()).unwrap();
    assert_eq!(again, u);
}

#[test]
fn relative_reference_inherits_scheme_and_authority() {
    let base = "https://example.com/a/b/c";
    let u = resolve_reference("/x", base).unwrap();
    assert_eq!(u.scheme, Some("https".to_string()));
    assert_eq!(u.host, Some("example.com".to_string()));
    assert_eq!(u.path, Some("/x".to_string()));
    let v = resolve_reference("sibling", base).unwrap();
    assert_eq!(v.scheme, Some("https".to_string()));
    assert_eq!(v.host, Some("example.com".to_string()));
    assert_eq!(v.path, Some("/a/b/sibling".to_string()));
}

#[test]
fn dot_segments_are_normalized() {
    let base = "https://example.com/a/b/c";
    let u = resolve_reference("../d", base).unwrap();
    assert_eq!(u.path, Some("/a/d".to_string()));
    let v = resolve_reference("./e", base).unwrap();
    assert_eq!(v.path, Some("/a/b/e".to_string()));
}

#[test]
fn absolute_reference_is_not_rewritten() {
    let u = resolve_reference("https://other.com/y", "https://example.com/page").unwrap();
    assert_eq!(u.host, Some("other.com".to_string()));
    assert_eq!(u.scheme, Some("https".to_string()));
    assert_eq!(u.path, Some("/y".to_string()));
}

#[test]
fn unresolvable_reference_yields_none() {
    assert!(resolve_reference("https://ex ample.com/", "https://example.com/page").is_none());
}

#[test]
fn invalid_base_yields_none() {
    assert!(resolve_reference("/x", "not a base").is_none());
}

#[test]
fn reconstruction_formats_the_port_digits() {
    let u = linkscan::uri::Uri {
        authority: Some("h".to_string()),
        fragment: None,
        host: Some("h".to_string()),
        path: Some("/p".to_string()),
        port: Some(65535),
        query: None,
        scheme: Some("https".to_string()),
        userinfo: None,
    };
    assert_eq!(uri_to_string(&u), "https://h:65535/p");
}

#[test]
fn reconstruction_appends_the_query() {
    let u = linkscan::uri::Uri {
        authority: Some("h".to_string()),
        fragment: None,
        host: Some("h".to_string()),
        path: Some("/".to_string()),
        port: None,
        query: Some("a=b&c=d".to_string()),
        scheme: Some("http".to_string()),
        userinfo: None,
    };
    assert_eq!(uri_to_string(&u), "http://h/?a=b&c=d");
}
