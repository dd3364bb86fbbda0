use scan2blob::http_accept_header::HttpAcceptHeader;
use scan2blob::http_basic_auth::HttpBasicAuth;

#[test]
fn example_from_mozilla_docs() {
    let s = "text/html,application/xhtml+xml,application/xml;q=0.9,*/*;q=0.8";
    let parsed = HttpAcceptHeader::new().parse(s);
    assert_eq!(
        parsed,
        vec![
            (Some("text".to_string()), Some("html".to_string())),
            (Some("application".to_string()), Some("xhtml+xml".to_string())),
            (Some("application".to_string()), Some("xml".to_string())),
            (None, None)
        ]
    );
}

#[test]
fn first_component_wildcard() {
    let s = "*/html;q=0.9;q=0.8";
    let parsed = HttpAcceptHeader::new().parse(s);
    assert_eq!(parsed, vec![(None, Some("html".to_string()))]);
}

#[test]
fn second_component_wildcard() {
    let s = "text/*;q=0.9;q=0.8";
    let parsed = HttpAcceptHeader::new().parse(s);
    assert_eq!(parsed, vec![(Some("text".to_string()), None)]);
}

#[test]
fn malformed_ranges_are_skipped() {
    let parsed = HttpAcceptHeader::new().parse("text/html, nonsense, image/png");
    assert_eq!(
        parsed,
        vec![
            (Some("text".to_string()), Some("html".to_string())),
            (Some("image".to_string()), Some("png".to_string())),
        ]
    );
    let parsed = HttpAcceptHeader::new().parse("");
    assert_eq!(parsed, vec![]);
    let parsed = HttpAcceptHeader::new().parse("  text / html ; level=1 ");
    assert_eq!(parsed, vec![(Some("text".to_string()), Some("html".to_string()))]);
}

#[test]
fn basic_auth_round_trip() {
    // "user:pass" in standard base64.
    let parsed = HttpBasicAuth::new().parse("Basic dXNlcjpwYXNz");
    assert_eq!(parsed, Some(("user".to_string(), "pass".to_string())));
    // Surrounding whitespace is tolerated.
    let parsed = HttpBasicAuth::new().parse("  Basic   dXNlcjpwYXNz  ");
    assert_eq!(parsed, Some(("user".to_string(), "pass".to_string())));
}

#[test]
fn basic_auth_splits_at_the_first_colon() {
    // "a:b:c" in standard base64: the password keeps its colon.
    let parsed = HttpBasicAuth::new().parse("Basic YTpiOmM=");
    assert_eq!(parsed, Some(("a".to_string(), "b:c".to_string())));
}

#[test]
fn basic_auth_refuses_other_shapes() {
    let auth = HttpBasicAuth::new();
    assert_eq!(auth.parse("Bearer abcdef"), None);
    assert_eq!(auth.parse("Basic"), None);
    assert_eq!(auth.parse("Basic "), None);
    // Not base64 at all.
    assert_eq!(auth.parse("Basic %%%"), None);
    // Valid base64, but no colon inside ("userpass").
    assert_eq!(auth.parse("Basic dXNlcnBhc3M="), None);
}
