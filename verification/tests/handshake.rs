use websocket::result::{WebSocketError, WSUrlErrorKind};
use websocket::server::request::Request;
use websocket::server::upgrade::{
    validate, ConnectionOption, HyperIntoWsError, Method, Protocol, ProtocolName, ProtocolVersion,
    UpgradeHeaders, WebSocketVersion,
};
use websocket::util::sha1::sha1;
use websocket::util::str_eq_ignore_case;
use websocket::util::HeaderCollection;
use websocket::ws::handshake::check::CheckWebSocketHeader;
use websocket::ws::handshake::request::WebSocketRequest;
use websocket::ws::handshake::response::WebSocketResponse;
use websocket::ws::handshake::version::HttpVersion;

#[test]
fn test_str_eq_ignore_case() {
    assert!(str_eq_ignore_case("ABCdefghiJKL", "aBcDeFgHiJkL"));
}

#[test]
fn str_eq_ignore_case_refuses_non_ascii_and_lengths() {
    assert!(!str_eq_ignore_case("é", "é"));
    assert!(!str_eq_ignore_case("abc", "abcd"));
    assert!(!str_eq_ignore_case("abc", "abd"));
}

#[test]
fn sha1_known_digests() {
    let d = sha1(b"abc");
    assert_eq!(
        d,
        [
            0xa9, 0x99, 0x3e, 0x36, 0x47, 0x06, 0x81, 0x6a, 0xba, 0x3e, 0x25, 0x71, 0x78, 0x50, 0xc2,
            0x6c, 0x9c, 0xd0, 0xd8, 0x9d
        ]
    );
    let d = sha1(b"");
    assert_eq!(
        d,
        [
            0xda, 0x39, 0xa3, 0xee, 0x5e, 0x6b, 0x4b, 0x0d, 0x32, 0x55, 0xbf, 0xef, 0x95, 0x60, 0x18,
            0x90, 0xaf, 0xd8, 0x07, 0x09
        ]
    );
    let long = vec![b'a'; 1000];
    let d = sha1(&long);
    assert_eq!(
        d,
        [
            0x29, 0x1e, 0x9a, 0x6c, 0x66, 0x99, 0x49, 0x49, 0xb5, 0x7b, 0xa5, 0xe6, 0x50, 0x36, 0x1e,
            0x98, 0xfc, 0x36, 0xb1, 0xba
        ]
    );
}

#[test]
fn response_accepts_its_key() {
    let response = WebSocketResponse::new("dGhlIHNhbXBsZSBub25jZQ==", Some("myProtocol"));
    assert_eq!(response.accept().unwrap(), "s3pPLMBiTxaQ9kYGzzhZRbK+xOo=");
    assert_eq!(response.upgrade().unwrap(), "websocket");
    assert_eq!(response.connection().unwrap(), "Upgrade");
    assert_eq!(response.protocol().unwrap(), "myProtocol");
    assert_eq!(response.status_code, 101);
    assert!(response.is_successful("dGhlIHNhbXBsZSBub25jZQ=="));
    assert!(!response.is_successful("another key"));
    assert!(response.headers.check_response());
}

#[test]
fn failure_response() {
    let response = WebSocketResponse::failure(403, "Forbidden");
    assert_eq!(response.status_code, 403);
    assert_eq!(response.reason_phrase, "Forbidden");
    assert!(!response.is_successful("x"));
    assert_eq!(response.version(), None);
}

#[test]
fn response_header_lists() {
    let mut response = WebSocketResponse::failure(400, "Bad Request");
    response.headers.insert("Sec-WebSocket-Version", "13, 8 ,7");
    assert_eq!(
        response.version().unwrap(),
        vec!["13".to_string(), "8".to_string(), "7".to_string()]
    );
}

#[test]
fn request_for_uri() {
    let protocols = vec!["FirstPreference", "SecondPreference", "ThirdPreference"];
    let request = WebSocketRequest::new("ws://www.example.com:1234", protocols.as_slice()).unwrap();
    assert_eq!(request.host().unwrap(), "www.example.com:1234");
    assert_eq!(request.version().unwrap(), "13");
    assert_eq!(request.resource_name, "/");
    assert_eq!(request.key().unwrap().len(), 24);
    assert_eq!(
        request.protocol().unwrap(),
        vec!["FirstPreference".to_string(), "SecondPreference".to_string(), "ThirdPreference".to_string()]
    );
    assert_eq!(request.upgrade().unwrap(), vec!["websocket".to_string()]);
    assert_eq!(request.connection().unwrap(), vec!["Upgrade".to_string()]);
    assert_eq!(request.origin(), None);
    assert!(request.headers.check_request());
    let response = WebSocketResponse::new(&request.key().unwrap(), None);
    assert!(response.is_successful(&request.key().unwrap()));
}

#[test]
fn request_errors() {
    let p: Vec<&str> = vec![];
    assert_eq!(
        WebSocketRequest::new("http://example.com", &p).unwrap_err(),
        WebSocketError::WebSocketUrlError(WSUrlErrorKind::InvalidScheme)
    );
    assert_eq!(WebSocketRequest::new("not a url", &p).unwrap_err(), WebSocketError::UrlError);
    let r = WebSocketRequest::new("ws://example.com/a/b?q", &p).unwrap();
    assert_eq!(r.resource_name, "/a/b");
    assert_eq!(r.host().unwrap(), "example.com:80");
}

#[test]
fn header_collection_is_case_insensitive() {
    let mut headers = HeaderCollection::new();
    headers.insert("Accept", "a");
    headers.insert("ACCEPT", "b");
    assert!(headers.contains_field("accept"));
    assert_eq!(headers.get("aCcEpT"), Some("a, b".to_string()));
    assert_eq!(headers.remove("Accept"), Some("a, b".to_string()));
    assert!(!headers.contains_field("Accept"));
    assert_eq!(headers.remove("Accept"), None);
    headers.insert("X", "1");
    headers.insert("Y", "2");
    let mut it = headers.iter();
    assert_eq!(it.next(), Some(("x".to_string(), "1".to_string())));
    assert_eq!(it.next(), Some(("y".to_string(), "2".to_string())));
    assert_eq!(it.next(), None);
    let copy = headers.clone();
    assert_eq!(copy.get("y"), Some("2".to_string()));
}

#[test]
fn check_headers() {
    let mut headers = HeaderCollection::new();
    headers.insert("Host", "h");
    headers.insert("Connection", "keep-alive, Upgrade");
    headers.insert("Upgrade", "WebSocket");
    headers.insert("Sec-WebSocket-Version", "13");
    assert!(!headers.check_request());
    headers.insert("Sec-WebSocket-Key", "k");
    assert!(headers.check_request());
    let mut bad = headers.clone();
    bad.insert("Sec-WebSocket-Version", "8");
    assert!(!bad.check_request());
}

#[test]
fn http_versions() {
    let v = HttpVersion::parse("HTTP/1.1");
    assert_eq!(v, HttpVersion::new(1, Some(1)));
    assert_eq!(v.to_string(), "1.1");
    let v = HttpVersion::parse("2");
    assert_eq!(v, HttpVersion::new(2, None));
    assert_eq!(v.to_string(), "2");
    let v = HttpVersion::parse("x10.300");
    assert_eq!(v, HttpVersion::new(10, None));
    assert_eq!(HttpVersion::new(255, Some(0)).to_string(), "255.0");
}

fn upgrade_headers() -> UpgradeHeaders {
    UpgradeHeaders {
        websocket_version: Some(WebSocketVersion::WebSocket13),
        key: Some("dGhlIHNhbXBsZSBub25jZQ==".to_string()),
        upgrade: Some(vec![Protocol { name: ProtocolName::WebSocket, version: None }]),
        connection: Some(vec![
            ConnectionOption::KeepAlive,
            ConnectionOption::ConnectionHeader("UPGRADE".to_string()),
        ]),
        protocol: None,
        extensions: None,
        origin: Some("http://example.com".to_string()),
    }
}

#[test]
fn upgrade_validation() {
    let h = upgrade_headers();
    assert_eq!(validate(&Method::Get, &ProtocolVersion::Http11, &h), Ok(()));
    assert_eq!(
        validate(&Method::Post, &ProtocolVersion::Http11, &h),
        Err(HyperIntoWsError::MethodNotGet)
    );
    assert_eq!(
        validate(&Method::Get, &ProtocolVersion::Http10, &h),
        Err(HyperIntoWsError::UnsupportedHttpVersion)
    );
    let mut v = h.clone();
    v.websocket_version = None;
    assert_eq!(validate(&Method::Get, &ProtocolVersion::Http11, &v), Ok(()));
    v.websocket_version = Some(WebSocketVersion::Unknown("8".to_string()));
    assert_eq!(
        validate(&Method::Get, &ProtocolVersion::Http11, &v),
        Err(HyperIntoWsError::UnsupportedWebsocketVersion)
    );
    let mut k = h.clone();
    k.key = None;
    assert_eq!(
        validate(&Method::Get, &ProtocolVersion::Http11, &k),
        Err(HyperIntoWsError::NoSecWsKeyHeader)
    );
    let mut u = h.clone();
    u.upgrade = Some(vec![Protocol { name: ProtocolName::H2c, version: None }]);
    assert_eq!(
        validate(&Method::Get, &ProtocolVersion::Http11, &u),
        Err(HyperIntoWsError::NoWsUpgradeHeader)
    );
    u.upgrade = None;
    assert_eq!(
        validate(&Method::Get, &ProtocolVersion::Http11, &u),
        Err(HyperIntoWsError::NoUpgradeHeader)
    );
    let mut c = h.clone();
    c.connection = Some(vec![ConnectionOption::Close]);
    assert_eq!(
        validate(&Method::Get, &ProtocolVersion::Http11, &c),
        Err(HyperIntoWsError::NoWsConnectionHeader)
    );
    c.connection = None;
    assert_eq!(
        validate(&Method::Get, &ProtocolVersion::Http11, &c),
        Err(HyperIntoWsError::NoConnectionHeader)
    );
    assert_eq!(HyperIntoWsError::NoConnectionHeader.description(), "Missing Connection WebSocket header");
}

#[test]
fn request_validation() {
    let request = Request {
        method: Method::Get,
        url: "/".to_string(),
        version: ProtocolVersion::Http11,
        headers: upgrade_headers(),
    };
    assert_eq!(request.validate(), Ok(()));
    assert_eq!(request.origin(), Some(&"http://example.com".to_string()));
    let mut missing = request.clone();
    missing.headers.websocket_version = None;
    assert_eq!(
        missing.validate(),
        Err(WebSocketError::RequestError(HyperIntoWsError::UnsupportedWebsocketVersion))
    );
}
