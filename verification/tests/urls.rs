use websocket::result::{WSUrlErrorKind, WebSocketError};
use websocket::ws::util::url::{parse_url, parse_url_str, Host, ToWebSocketUrlComponents, Url};

fn url_for_test() -> Url {
    Url {
        fragment: None,
        scheme: "ws".to_owned(),
        host: Some("www.example.com".to_owned()),
        port: Some(8080),
        default_port: Some(80),
        path: Some(vec!["some".to_owned(), "path".to_owned()]),
        query: Some("a=b&c=d".to_owned()),
    }
}

#[test]
fn test_parse_url_fragments_not_accepted() {
    let url = &mut url_for_test();
    url.fragment = Some("non_null_fragment".to_owned());

    let result = parse_url(url);
    match result {
        Err(WebSocketError::WebSocketUrlError(WSUrlErrorKind::CannotSetFragment)) => (),
        Err(e) => panic!("Expected WSUrlErrorKind::CannotSetFragment but got {:?}", e),
        Ok(_) => panic!("Expected WSUrlErrorKind::CannotSetFragment but got Ok"),
    }
}

#[test]
fn test_parse_url_invalid_schemes_return_error() {
    let url = &mut url_for_test();

    let invalid_schemes = &["http", "https", "gopher", "file", "ftp", "other"];
    for scheme in invalid_schemes {
        url.scheme = scheme.to_string();

        let result = parse_url(url);
        match result {
            Err(WebSocketError::WebSocketUrlError(WSUrlErrorKind::InvalidScheme)) => (),
            Err(e) => panic!("Expected WSUrlErrorKind::InvalidScheme but got {:?}", e),
            Ok(_) => panic!("Expected WSUrlErrorKind::InvalidScheme but got Ok"),
        }
    }
}

#[test]
fn test_parse_url_valid_schemes_return_ok() {
    let url = &mut url_for_test();

    let valid_schemes = &["ws", "wss"];
    for scheme in valid_schemes {
        url.scheme = scheme.to_string();

        let result = parse_url(url);
        match result {
            Ok(_) => (),
            Err(e) => panic!("Expected Ok, but got {:?}", e),
        }
    }
}

#[test]
fn test_parse_url_ws_returns_unset_secure_flag() {
    let url = &mut url_for_test();
    url.scheme = "ws".to_owned();

    let result = parse_url(url);
    let secure = match result {
        Ok((_, _, secure)) => secure,
        Err(e) => panic!("{:?}", e),
    };
    assert!(!secure);
}

#[test]
fn test_parse_url_wss_returns_set_secure_flag() {
    let url = &mut url_for_test();
    url.scheme = "wss".to_owned();

    let result = parse_url(url);
    let secure = match result {
        Ok((_, _, secure)) => secure,
        Err(e) => panic!("{:?}", e),
    };
    assert!(secure);
}

#[test]
fn test_parse_url_generates_proper_output() {
    let url = &url_for_test();

    let result = parse_url(url);
    let (host, resource) = match result {
        Ok((host, resource, _)) => (host, resource),
        Err(e) => panic!("{:?}", e),
    };

    assert_eq!(host.hostname, "www.example.com".to_owned());
    assert_eq!(resource, "/some/path?a=b&c=d".to_owned());

    match host.port {
        Some(port) => assert_eq!(port, 8080),
        _ => panic!("Port should not be None"),
    }
}

#[test]
fn test_parse_url_empty_path_should_give_slash() {
    let url = &mut url_for_test();
    url.path = Some(vec![]);

    let result = parse_url(url);
    let resource = match result {
        Ok((_, resource, _)) => resource,
        Err(e) => panic!("{:?}", e),
    };

    assert_eq!(resource, "/?a=b&c=d".to_owned());
}

#[test]
fn test_parse_url_none_query_should_not_append_question_mark() {
    let url = &mut url_for_test();
    url.query = None;

    let result = parse_url(url);
    let resource = match result {
        Ok((_, resource, _)) => resource,
        Err(e) => panic!("{:?}", e),
    };

    assert_eq!(resource, "/some/path".to_owned());
}

#[test]
fn test_parse_url_none_port_should_use_default_port() {
    let url = &mut url_for_test();
    url.port = None;

    let result = parse_url(url);
    let host = match result {
        Ok((host, _, _)) => host,
        Err(e) => panic!("{:?}", e),
    };

    match host.port {
        Some(80) => (),
        Some(p) => panic!("Expected port to be 80 but got {}", p),
        None => panic!("Expected port to be 80 but got `None`"),
    }
}

#[test]
fn test_parse_url_str_valid_url1() {
    let url_str = "ws://www.example.com/some/path?a=b&c=d";
    let result = parse_url_str(url_str);
    let (host, resource, secure) = match result {
        Ok((host, resource, secure)) => (host, resource, secure),
        Err(e) => panic!("{:?}", e),
    };

    match host.port {
        Some(80) => (),
        Some(p) => panic!("Expected port 80 but got {}", p),
        None => panic!("Expected port 80 but got `None`"),
    }
    assert_eq!(host.hostname, "www.example.com".to_owned());
    assert_eq!(resource, "/some/path?a=b&c=d".to_owned());
    assert!(!secure);
}

#[test]
fn test_parse_url_str_valid_url2() {
    let url_str = "wss://www.example.com";
    let result = parse_url_str(url_str);
    let (host, resource, secure) = match result {
        Ok((host, resource, secure)) => (host, resource, secure),
        Err(e) => panic!("{:?}", e),
    };

    match host.port {
        Some(443) => (),
        Some(p) => panic!("Expected port 443 but got {}", p),
        None => panic!("Expected port 443 but got `None`"),
    }
    assert_eq!(host.hostname, "www.example.com".to_owned());
    assert_eq!(resource, "/".to_owned());
    assert!(secure);
}

#[test]
fn test_parse_url_str_invalid_relative_url() {
    let url_str = "/some/relative/path?a=b&c=d";
    let result = parse_url_str(url_str);
    match result {
        Err(WebSocketError::UrlError) => (),
        Err(e) => panic!("Expected UrlError, but got unexpected error {:?}", e),
        Ok(_) => panic!("Expected UrlError, but got Ok"),
    }
}

#[test]
fn test_parse_url_str_invalid_url_scheme() {
    let url_str = "http://www.example.com/some/path?a=b&c=d";
    let result = parse_url_str(url_str);
    match result {
        Err(WebSocketError::WebSocketUrlError(WSUrlErrorKind::InvalidScheme)) => (),
        Err(e) => panic!("Expected InvalidScheme, but got unexpected error {:?}", e),
        Ok(_) => panic!("Expected InvalidScheme, but got Ok"),
    }
}

#[test]
fn test_parse_url_str_invalid_url_fragment() {
    let url_str = "http://www.example.com/some/path#some-id";
    let result = parse_url_str(url_str);
    match result {
        Err(WebSocketError::WebSocketUrlError(WSUrlErrorKind::CannotSetFragment)) => (),
        Err(e) => panic!("Expected CannotSetFragment, but got unexpected error {:?}", e),
        Ok(_) => panic!("Expected CannotSetFragment, but got Ok"),
    }
}

#[test]
fn url_components_from_hosts() {
    let host = Host { hostname: "example.org".to_owned(), port: None };
    let (h, r, s) = (host.clone(), String::new(), true).to_components().unwrap();
    assert_eq!(h.port, Some(443));
    assert_eq!(r, "/");
    assert!(s);
    let (h, r, s) = (host.clone(), "/chat").to_components().unwrap();
    assert_eq!(h.port, Some(80));
    assert_eq!(r, "/chat");
    assert!(!s);
    let (h, _, _) = "ws://example.org:9001/x".to_components().unwrap();
    assert_eq!(h.port, Some(9001));
    assert_eq!(h.hostname, "example.org");
}

#[test]
fn url_without_host_is_refused() {
    let url = Url {
        fragment: None,
        scheme: "ws".to_owned(),
        host: None,
        port: None,
        default_port: None,
        path: None,
        query: None,
    };
    assert_eq!(
        url.to_components().unwrap_err(),
        WebSocketError::WebSocketUrlError(WSUrlErrorKind::NoHostName)
    );
}
