//! HTTP headers on their way through a proxy.
use hyper::header::HeaderValue;
use hyper::HeaderMap;
use wispers_access::headers::{
    app_not_found, eq_ignore_case, has_room, host_header, if_none_match, inject_identity,
    is_upgrade_request, lower_text, rewrite_guest_request, rewrite_host_request, rewrite_response,
    strip_hop_by_hop_headers, try_rewrite_guest_request, try_rewrite_host_request, ResponseKind,
    IDENTITY_HEADER, ROOM,
};

fn headers(pairs: &[(&'static str, &str)]) -> HeaderMap {
    let mut map = HeaderMap::new();
    for (name, value) in pairs {
        map.append(*name, HeaderValue::from_str(value).unwrap());
    }
    map
}

fn names(map: &HeaderMap) -> Vec<&str> {
    let mut names: Vec<&str> = map.keys().map(|k| k.as_str()).collect();
    names.sort();
    names
}

const ALL: &[(&str, &str)] = &[
    ("accept", "*/*"),
    ("connection", "Upgrade"),
    ("keep-alive", "timeout=5"),
    ("proxy-authenticate", "Basic"),
    ("proxy-authorization", "Basic x"),
    ("te", "trailers"),
    ("te", "deflate"),
    ("trailers", "x"),
    ("transfer-encoding", "chunked"),
    ("upgrade", "websocket"),
];

#[test]
fn hop_by_hop_headers_are_stripped() {
    let mut plain = headers(ALL);
    strip_hop_by_hop_headers(&mut plain, false);
    assert_eq!(names(&plain), ["accept", "transfer-encoding"]);
    // An upgrade keeps the headers that carry its handshake.
    let mut upgrade = headers(ALL);
    strip_hop_by_hop_headers(&mut upgrade, true);
    assert_eq!(
        names(&upgrade),
        ["accept", "connection", "transfer-encoding", "upgrade"]
    );
}

#[test]
fn upgrades_are_recognised() {
    assert!(is_upgrade_request(&headers(ALL)));
    assert!(is_upgrade_request(&headers(&[
        ("connection", "keep-alive, UPGRADE"),
        ("upgrade", "websocket")
    ])));
    assert!(!is_upgrade_request(&headers(&[("upgrade", "websocket")])));
    assert!(!is_upgrade_request(&headers(&[("connection", "upgrade")])));
    assert!(!is_upgrade_request(&headers(&[
        ("connection", "keep-alive"),
        ("upgrade", "websocket")
    ])));
    // Only the first value of the header counts, and only where it is text.
    let mut odd = headers(&[("upgrade", "websocket")]);
    odd.append("connection", HeaderValue::from_bytes(b"\xff").unwrap());
    odd.append("connection", HeaderValue::from_static("upgrade"));
    assert!(!is_upgrade_request(&odd));
}

#[test]
fn identities_are_injected() {
    let mut map = headers(&[(IDENTITY_HEADER, "mallory"), (IDENTITY_HEADER, "eve")]);
    assert!(!inject_identity(&mut map, Some("alice")));
    assert_eq!(map.get_all(IDENTITY_HEADER).iter().count(), 1);
    assert_eq!(map[IDENTITY_HEADER], "alice");
    assert!(!inject_identity(&mut map, None));
    assert!(!map.contains_key(IDENTITY_HEADER));
    // What cannot be a header value is left out.
    let mut map = headers(&[(IDENTITY_HEADER, "mallory")]);
    assert!(inject_identity(&mut map, Some("a\nb")));
    assert!(!map.contains_key(IDENTITY_HEADER));
    assert!(!inject_identity(&mut map, Some("jürgen")));
    assert_eq!(map[IDENTITY_HEADER].as_bytes(), "jürgen".as_bytes());
}

#[test]
fn guest_requests_are_rewritten() {
    let mut map = headers(&[("connection", "keep-alive"), ("accept", "*/*")]);
    assert!(!rewrite_guest_request(&mut map));
    assert_eq!(names(&map), ["accept", "connection"]);
    assert_eq!(map["connection"], "close");
    let mut map = headers(ALL);
    assert_eq!(try_rewrite_guest_request(&mut map), Some(true));
    assert_eq!(map["connection"], "Upgrade");
}

#[test]
fn host_requests_are_rewritten() {
    let mut map = headers(&[
        ("connection", "keep-alive"),
        (IDENTITY_HEADER, "mallory"),
        ("accept", "*/*"),
    ]);
    assert!(!rewrite_host_request(&mut map, Some("alice")));
    assert_eq!(names(&map), ["accept", IDENTITY_HEADER]);
    assert_eq!(map[IDENTITY_HEADER], "alice");
    let mut map = headers(ALL);
    assert_eq!(try_rewrite_host_request(&mut map, None), Some(true));
    assert!(map.contains_key("upgrade"));
}

#[test]
fn crowded_header_maps_are_left_alone() {
    let mut map = HeaderMap::new();
    for i in 0..ROOM {
        let name = hyper::header::HeaderName::from_bytes(format!("x-{i}").as_bytes()).unwrap();
        map.insert(name, HeaderValue::from_static("1"));
    }
    assert!(!has_room(&map));
    assert_eq!(try_rewrite_guest_request(&mut map), None);
    assert_eq!(try_rewrite_host_request(&mut map, Some("alice")), None);
    assert_eq!(map.keys_len(), ROOM);
    map.remove("x-0");
    assert!(has_room(&map));
    assert_eq!(try_rewrite_host_request(&mut map, Some("alice")), Some(false));
}

#[test]
fn responses_are_rewritten() {
    let mut map = headers(ALL);
    assert_eq!(rewrite_response(101, &mut map, true), ResponseKind::Relay);
    assert!(map.contains_key("connection"));
    assert_eq!(rewrite_response(101, &mut map, false), ResponseKind::Unasked);
    assert_eq!(rewrite_response(200, &mut map, true), ResponseKind::Plain);
    assert_eq!(names(&map), ["accept", "transfer-encoding"]);
}

#[test]
fn single_headers_are_read() {
    let map = headers(&[
        ("host", "a.b.localhost"),
        ("if-none-match", "\"0\""),
        ("x-wispers-access-error", "app-not-found"),
    ]);
    assert_eq!(host_header(&map).as_deref(), Some("a.b.localhost"));
    assert_eq!(if_none_match(&map).as_deref(), Some("\"0\""));
    assert!(app_not_found(404, &map));
    assert!(!app_not_found(200, &map));
    assert!(!app_not_found(404, &HeaderMap::new()));
}

#[test]
fn ascii_case_is_ignored() {
    assert!(eq_ignore_case("UpGrade", "upgrade"));
    assert!(!eq_ignore_case("upgrad", "upgrade"));
    assert!(!eq_ignore_case("Ä", "ä"));
    assert_eq!(lower_text("ABC-Äz2"), "abc-Äz2");
}
