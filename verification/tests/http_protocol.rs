use keepass_sync::http::{
    check_token, eq_ignore_ascii_case, hex_value, immediate_reply, is_authorized,
    missing_reply, parse_incoming_path, required_query, route_request, url_decode, HttpMethod,
    RequestTarget, Route,
};
use keepass_sync::{HttpServerError, Revision, RevisionError};

#[test]
fn parses_request_target_query() {
    let target =
        RequestTarget::parse("/canonical?device_id=Pixel+8&base_revision=sha256%3Aabc");

    assert_eq!(target.path, "/canonical");
    assert_eq!(
        target.query,
        vec![
            ("device_id".to_string(), "Pixel 8".to_string()),
            ("base_revision".to_string(), "sha256:abc".to_string())
        ]
    );
}

#[test]
fn parses_incoming_path() {
    assert_eq!(
        parse_incoming_path("/incoming/pixel/sha256%3Aabc"),
        Some(("pixel".to_string(), "sha256:abc".to_string()))
    );
}

#[test]
fn incoming_path_edge_cases() {
    assert_eq!(
        parse_incoming_path("incoming/a/b"),
        Some(("a".to_string(), "b".to_string()))
    );
    assert_eq!(
        parse_incoming_path("///incoming/a/b"),
        Some(("a".to_string(), "b".to_string()))
    );
    assert_eq!(parse_incoming_path("/incoming/a"), None);
    assert_eq!(parse_incoming_path("/incoming/a/b/c"), None);
    assert_eq!(parse_incoming_path("/outgoing/a/b"), None);
    assert_eq!(parse_incoming_path("/incoming/%zz/b"), None);
    assert_eq!(
        parse_incoming_path("/%69ncoming/a/b"),
        Some(("a".to_string(), "b".to_string()))
    );
}

#[test]
fn target_without_query() {
    let target = RequestTarget::parse("/health");
    assert_eq!(target.path, "/health");
    assert!(target.query.is_empty());

    let target = RequestTarget::parse("/x?a&&b=1&c=%zz&=v&d=1=2");
    assert_eq!(target.path, "/x");
    assert_eq!(
        target.query,
        vec![
            ("a".to_string(), "".to_string()),
            ("b".to_string(), "1".to_string()),
            ("".to_string(), "v".to_string()),
            ("d".to_string(), "1=2".to_string()),
        ]
    );

    let target = RequestTarget::parse("/p?q?r=1");
    assert_eq!(target.path, "/p");
    assert_eq!(target.query, vec![("q?r".to_string(), "1".to_string())]);
}

#[test]
fn percent_decoding() {
    assert_eq!(hex_value(b'0'), Some(0));
    assert_eq!(hex_value(b'9'), Some(9));
    assert_eq!(hex_value(b'a'), Some(10));
    assert_eq!(hex_value(b'F'), Some(15));
    assert_eq!(hex_value(b'g'), None);
    assert_eq!(url_decode("a+b%20c"), Some("a b c".to_string()));
    assert_eq!(url_decode("%C3%A9"), Some("é".to_string()));
    assert_eq!(url_decode("%"), None);
    assert_eq!(url_decode("%4"), None);
    assert_eq!(url_decode("%4g"), None);
    // a lone continuation byte is not UTF-8
    assert_eq!(url_decode("%FF"), None);
    assert_eq!(url_decode(""), Some(String::new()));
}

#[test]
fn first_query_value_wins() {
    let target = RequestTarget::parse("/p?k=1&k=2&j=3");
    assert_eq!(required_query(&target, "k"), Some("1".to_string()));
    assert_eq!(required_query(&target, "j"), Some("3".to_string()));
    assert_eq!(required_query(&target, "z"), None);
}

fn headers(pairs: &[(&str, &str)]) -> Vec<(String, String)> {
    pairs
        .iter()
        .map(|(k, v)| (k.to_string(), v.to_string()))
        .collect()
}

#[test]
fn authorization_header() {
    assert!(eq_ignore_ascii_case("authorization", "Authorization"));
    assert!(!eq_ignore_ascii_case("authorizatio", "Authorization"));
    assert!(is_authorized(
        &headers(&[("Host", "x"), ("authorization", "Bearer secret")]),
        "secret"
    ));
    assert!(!is_authorized(
        &headers(&[("Authorization", "Bearer other")]),
        "secret"
    ));
    assert!(!is_authorized(&headers(&[("Authorization", "secret")]), "secret"));
    assert!(!is_authorized(&headers(&[]), "secret"));
}

#[test]
fn routing() {
    let ok = headers(&[("Authorization", "Bearer t")]);
    let none = headers(&[]);
    assert!(matches!(
        route_request(HttpMethod::Get, "/health", &none, "t"),
        Route::Health
    ));
    assert!(matches!(
        route_request(HttpMethod::Get, "/manifest", &none, "t"),
        Route::Unauthorized
    ));
    assert!(matches!(
        route_request(HttpMethod::Get, "/manifest", &ok, "t"),
        Route::Manifest
    ));
    assert!(matches!(
        route_request(HttpMethod::Get, "/canonical", &ok, "t"),
        Route::Canonical
    ));
    assert!(matches!(
        route_request(HttpMethod::Get, "/incoming", &ok, "t"),
        Route::IncomingList
    ));
    assert!(matches!(
        route_request(HttpMethod::Other, "/canonical", &ok, "t"),
        Route::NotFound
    ));
    assert!(matches!(
        route_request(HttpMethod::Put, "/canonical", &ok, "t"),
        Route::MissingRevision
    ));
    assert!(matches!(
        route_request(HttpMethod::Put, "/canonical?revision=abc", &ok, "t"),
        Route::InvalidRevision(RevisionError::MissingPrefix)
    ));
    assert!(matches!(
        route_request(HttpMethod::Get, "/incoming/dev/sha256%3Aab", &ok, "t"),
        Route::InvalidRevision(RevisionError::InvalidLength { actual: 2 })
    ));

    let rev = Revision::from_bytes(b"db");
    let url = format!(
        "/canonical?device_id=Pixel+8&revision={}&base_revision=",
        rev.as_str().replace(':', "%3A")
    );
    match route_request(HttpMethod::Put, &url, &ok, "t") {
        Route::PublishCanonical {
            device_id,
            revision,
            base_revision,
        } => {
            assert_eq!(device_id, "Pixel 8");
            assert_eq!(revision, rev);
            assert!(base_revision.is_none());
        }
        other => panic!("unexpected route {other:?}"),
    }

    let url = format!("/canonical?revision={}", rev.as_str());
    match route_request(HttpMethod::Put, &url, &ok, "t") {
        Route::PublishCanonical { device_id, .. } => assert_eq!(device_id, "unknown-device"),
        other => panic!("unexpected route {other:?}"),
    }

    let url = format!("/incoming/Pixel%208/{}", rev.as_str());
    match route_request(HttpMethod::Put, &url, &ok, "t") {
        Route::PreserveIncoming { device_id, revision } => {
            assert_eq!(device_id, "Pixel 8");
            assert_eq!(revision, rev);
        }
        other => panic!("unexpected route {other:?}"),
    }
}

#[test]
fn replies() {
    let r = immediate_reply(&Route::Health).unwrap();
    assert_eq!((r.status, r.body.as_str()), (200, "ok\n"));
    let r = immediate_reply(&Route::Unauthorized).unwrap();
    assert_eq!((r.status, r.body.as_str()), (401, "unauthorized\n"));
    let r = immediate_reply(&Route::NotFound).unwrap();
    assert_eq!((r.status, r.body.as_str()), (404, "not found\n"));
    assert!(immediate_reply(&Route::Manifest).is_none());
    let r = missing_reply(&Route::Manifest).unwrap();
    assert_eq!((r.status, r.body.as_str()), (404, "manifest not found\n"));
    let r = missing_reply(&Route::Canonical).unwrap();
    assert_eq!((r.status, r.body.as_str()), (404, "canonical database not found\n"));
    assert!(missing_reply(&Route::Health).is_none());
}

#[test]
fn token_must_not_be_blank() {
    assert!(check_token("secret").is_ok());
    assert!(matches!(check_token(""), Err(HttpServerError::EmptyToken)));
    assert!(matches!(check_token(" \t\n"), Err(HttpServerError::EmptyToken)));
    assert_eq!(
        HttpServerError::EmptyToken.message(""),
        "sync token cannot be empty"
    );
    assert_eq!(
        HttpServerError::InvalidRevision(RevisionError::InvalidHex).message(""),
        "invalid revision: revision contains non-hex characters"
    );
}
