use websocket::ws::message::Message as MessageTrait;
use websocket::dataframe::{DataFrame, Opcode};
use websocket::message::{Message, OwnedMessage};
use websocket::receiver::{Reader, Receiver};
use websocket::result::{IoErrorKind, WebSocketError};
use websocket::sender::{Sender, Writer};
use websocket::server::request::Request;
use websocket::server::upgrade::{
    into_ws, ConnectionOption, HyperIntoWsError, IntoWsError, Method, Protocol, ProtocolName,
    ProtocolVersion, UpgradeHeaders, WebSocketVersion,
};
use websocket::util::header::{ReadHttpHeaders, WriteHttpHeaders};
use websocket::util::HeaderCollection;
use websocket::util::ReadUntilStr;
use websocket::ws::dataframe::DataFrame as DataFrameable;
use websocket::ws::client::{WebSocketClient, WebSocketClientMode};
use websocket::ws::handshake::request::{parse_request_line, WebSocketRequest};
use websocket::ws::handshake::response::{
    parse_status_line, ReadWebSocketResponse, WebSocketResponse,
};
use websocket::ws::message::WebSocketMessage;
use websocket::ws::receiver::Receiver as ReceiverTrait;

fn valid_request() -> Request {
    Request {
        method: Method::Get,
        url: "/chat".to_string(),
        version: ProtocolVersion::Http11,
        headers: UpgradeHeaders {
            websocket_version: Some(WebSocketVersion::WebSocket13),
            key: Some("dGhlIHNhbXBsZSBub25jZQ==".to_string()),
            upgrade: Some(vec![Protocol { name: ProtocolName::WebSocket, version: None }]),
            connection: Some(vec![ConnectionOption::ConnectionHeader("Upgrade".to_string())]),
            protocol: Some(vec!["chat".to_string(), "superchat".to_string()]),
            extensions: None,
            origin: Some("http://example.com".to_string()),
        },
    }
}

#[test]
fn upgrade_is_refused_for_an_invalid_request() {
    let mut request = valid_request();
    request.method = Method::Post;
    match into_ws(vec![1u8], request, vec![2u8]) {
        Err((stream, req, buffer, e)) => {
            assert_eq!(stream, vec![1u8]);
            assert!(req.is_none());
            assert_eq!(buffer, vec![2u8]);
            assert_eq!(e, HyperIntoWsError::MethodNotGet);
        },
        Ok(_) => panic!("a POST request was upgraded"),
    }
    assert_eq!(IntoWsError::RequestIsNotUpgrade, IntoWsError::RequestIsNotUpgrade);
}

#[test]
fn upgrade_reports_what_the_client_asked_for() {
    let upgrade = into_ws(Vec::<u8>::new(), valid_request(), Vec::new()).ok().unwrap();
    assert_eq!(upgrade.protocols(), &["chat".to_string(), "superchat".to_string()]);
    assert!(upgrade.extensions().is_empty());
    assert_eq!(upgrade.key(), Some(&"dGhlIHNhbXBsZSBub25jZQ==".to_string()));
    assert_eq!(upgrade.version(), Some(&WebSocketVersion::WebSocket13));
    assert_eq!(upgrade.origin(), Some(&"http://example.com".to_string()));
    upgrade.drop();
}

#[test]
fn upgrade_chooses_protocol_and_extensions() {
    let upgrade = into_ws(Vec::<u8>::new(), valid_request(), Vec::new()).ok().unwrap();
    let upgrade = upgrade.use_protocol("chat").use_protocol("superchat");
    assert_eq!(upgrade.headers.get("Sec-WebSocket-Protocol"), Some("chat, superchat".to_string()));
    let upgrade = upgrade.use_extensions(Vec::new());
    assert_eq!(upgrade.headers.get("sec-websocket-extensions"), Some(String::new()));
    let upgrade = upgrade.use_extension("deflate");
    assert_eq!(upgrade.headers.get("sec-websocket-extensions"), Some(", deflate".to_string()));
    let fresh = into_ws(Vec::<u8>::new(), valid_request(), Vec::new()).ok().unwrap();
    let fresh = fresh.use_extensions(vec!["a".to_string(), "b; x=1".to_string()]);
    assert_eq!(fresh.headers.get("Sec-WebSocket-Extensions"), Some("a, b; x=1".to_string()));
}

#[test]
fn upgrade_accepts_with_the_key_of_the_request() {
    let upgrade = into_ws(Vec::<u8>::new(), valid_request(), vec![7u8]).ok().unwrap();
    let (stream, buffer, headers) = upgrade.use_protocol("chat").accept();
    assert_eq!(buffer, vec![7u8]);
    assert_eq!(headers.get("Sec-WebSocket-Accept"), Some("s3pPLMBiTxaQ9kYGzzhZRbK+xOo=".to_string()));
    assert_eq!(headers.get("connection"), Some("Upgrade".to_string()));
    assert_eq!(headers.get("upgrade"), Some("websocket".to_string()));
    let text = String::from_utf8(stream).unwrap();
    assert_eq!(
        text,
        "HTTP/1.1 101 Switching Protocols\r\nsec-websocket-protocol: chat\r\n\
         sec-websocket-accept: s3pPLMBiTxaQ9kYGzzhZRbK+xOo=\r\nconnection: Upgrade\r\n\
         upgrade: websocket\r\n\r\n"
    );
}

#[test]
fn upgrade_accepts_with_custom_headers() {
    let mut custom = HeaderCollection::new();
    custom.insert("X-Server", "test");
    custom.insert("Connection", "close");
    let upgrade = into_ws(Vec::<u8>::new(), valid_request(), Vec::new()).ok().unwrap();
    let (_, _, headers) = upgrade.accept_with(&custom);
    assert_eq!(headers.get("x-server"), Some("test".to_string()));
    // the headers that accept the upgrade win over the custom ones
    assert_eq!(headers.get("connection"), Some("Upgrade".to_string()));
}

#[test]
fn upgrade_rejects_with_bad_request() {
    let upgrade = into_ws(vec![b'>'], valid_request(), Vec::new()).ok().unwrap();
    let (stream, buffer) = upgrade.reject();
    assert!(buffer.is_empty());
    assert_eq!(String::from_utf8(stream).unwrap(), ">HTTP/1.1 400 Bad Request\r\n\r\n");
    let mut custom = HeaderCollection::new();
    custom.insert("Retry-After", "10");
    let upgrade = into_ws(Vec::new(), valid_request(), Vec::new()).ok().unwrap();
    let (stream, _) = upgrade.reject_with(&custom);
    assert_eq!(String::from_utf8(stream).unwrap(), "HTTP/1.1 400 Bad Request\r\nretry-after: 10\r\n\r\n");
}

#[test]
fn client_handshake_over_bytes() {
    let request = WebSocketRequest::new("ws://localhost:8080/path?q=1", &["chat"]).unwrap();
    let key = request.key().unwrap();
    let mut client = WebSocketClient::new(Vec::new(), WebSocketClientMode::RemoteServer);
    client.send_handshake_request(&request).unwrap();
    let mut server = WebSocketClient::new(client.stream(), WebSocketClientMode::RemoteClient);
    let received = server.receive_handshake_request().unwrap();
    assert_eq!(received.resource_name, "/path");
    assert_eq!(received.key(), Some(key.clone()));
    assert_eq!(received.protocol(), Some(vec!["chat".to_string()]));
    assert!(server.stream().is_empty());

    let response = WebSocketResponse::new(&key, Some("chat"));
    server.send_handshake_response(&response).unwrap();
    let mut reply = WebSocketClient::new(server.stream(), WebSocketClientMode::RemoteServer);
    let read = reply.receive_handshake_response().unwrap();
    assert!(read.is_successful(&key));
    assert_eq!(read.status_code, 101);
    assert_eq!(read.protocol(), Some("chat".to_string()));
    assert!(reply.clone().stream().is_empty());
}

#[test]
fn client_sender_masks_only_towards_a_server() {
    let to_server = WebSocketClient::new(Vec::<u8>::new(), WebSocketClientMode::RemoteServer);
    let to_client = WebSocketClient::new(Vec::<u8>::new(), WebSocketClientMode::RemoteClient);
    let mut wire = Vec::new();
    to_client.sender().send_message(&mut wire, &WebSocketMessage::Text("hi".to_string())).unwrap();
    assert_eq!(wire, vec![0x81, 0x02, b'h', b'i']);
    let mut masked = Vec::new();
    to_server.sender().send_message(&mut masked, &WebSocketMessage::Text("hi".to_string())).unwrap();
    assert_eq!(masked.len(), 8);
    assert_eq!(masked[1], 0x82);
    let mut receiver = to_client.receiver();
    assert_eq!(receiver.receive_message(&mut masked).unwrap(), WebSocketMessage::Text("hi".to_string()));
}

#[test]
fn reader_and_writer_carry_messages() {
    let mut writer = Writer { stream: Vec::new(), sender: Sender::new(false) };
    writer.send_message(&Message::binary(&[1u8, 2, 3][..])).unwrap();
    writer.send_dataframe(&DataFrame::new(true, Opcode::Ping, vec![9])).unwrap();
    assert_eq!(&writer.stream[..5], &[0x82, 0x03, 1, 2, 3]);
    let mut reader = Reader { stream: writer.stream.clone(), receiver: Receiver::new(false) };
    assert_eq!(reader.recv_message().unwrap(), OwnedMessage::Binary(vec![1, 2, 3]));
    let frame = reader.recv_dataframe().unwrap();
    assert_eq!(frame.opcode, Opcode::Ping);
    assert_eq!(frame.data, vec![9]);
    assert_eq!(reader.recv_dataframe().unwrap_err(), WebSocketError::NoDataAvailable);
}

#[test]
fn incoming_iterators_always_yield() {
    let mut wire = Vec::new();
    DataFrame::new(true, Opcode::Text, b"ab".to_vec()).write_to(&mut wire, false).unwrap();
    DataFrame::new(true, Opcode::Text, b"cd".to_vec()).write_to(&mut wire, false).unwrap();
    let mut receiver = Receiver::new(false);
    {
        let mut frames = receiver.incoming_dataframes(&mut wire);
        assert_eq!(frames.next().unwrap().unwrap().data, b"ab".to_vec());
    }
    {
        let mut messages = receiver.incoming_messages(&mut wire);
        assert_eq!(messages.next().unwrap().unwrap(), OwnedMessage::Text("cd".to_string()));
        assert_eq!(messages.next().unwrap().unwrap_err(), WebSocketError::NoDataAvailable);
    }
    let mut reader = Reader { stream: Vec::new(), receiver: Receiver::new(false) };
    assert!(reader.incoming_messages().next().unwrap().is_err());
    assert!(reader.incoming_dataframes().next().unwrap().is_err());
}

#[test]
fn message_payloads_from_slices_and_vectors() {
    let a = Message::ping(vec![1u8, 2]);
    let b = Message::ping(&[1u8, 2][..]);
    assert_eq!(a, b);
    assert_eq!(Message::pong(Vec::new()), Message::pong(&[][..]));
}

#[test]
fn status_and_request_lines() {
    assert_eq!(
        parse_status_line("HTTP/1.1 101 Switching Protocols"),
        Some((Some(1), Some(1), 101, "Switching Protocols".to_string()))
    );
    assert_eq!(parse_status_line("HTTP/2 404 "), Some((Some(2), None, 404, String::new())));
    assert_eq!(parse_status_line("HTTP/1.1 1011 x"), None);
    assert_eq!(parse_request_line("GET /chat HTTP/1.1"), Some(("/chat".to_string(), Some(1), Some(1))));
    assert_eq!(parse_request_line("POST /chat HTTP/1.1"), None);
}

#[test]
fn read_until_and_headers() {
    let mut input = b"first\r\nsecond".to_vec();
    assert_eq!(input.read_until_str("\r\n", false).unwrap(), "first");
    assert_eq!(input, b"second".to_vec());
    assert_eq!(
        input.read_until_str("\r\n", true).unwrap_err(),
        WebSocketError::IoError(IoErrorKind::UnexpectedEof)
    );
    let mut headers = HeaderCollection::new();
    headers.insert("Host", "example.com");
    headers.insert("X-List", "a");
    headers.insert("x-list", "b");
    let mut bytes = Vec::new();
    bytes.write_http_headers(&headers).unwrap();
    assert_eq!(bytes, b"host: example.com\r\nx-list: a, b\r\n".to_vec());
    bytes.extend_from_slice(b"\r\nrest");
    let read = bytes.read_http_headers().unwrap();
    assert_eq!(read.get("HOST"), Some("example.com".to_string()));
    assert_eq!(read.get("x-list"), Some("a, b".to_string()));
    assert_eq!(bytes, b"rest".to_vec());
}

#[test]
fn accepted_upgrade_reads_as_a_successful_handshake() {
    let upgrade = into_ws(Vec::<u8>::new(), valid_request(), Vec::new()).ok().unwrap();
    let (mut stream, _, _) = upgrade.accept();
    stream.extend_from_slice(b"after");
    let response = stream.read_websocket_response().unwrap();
    assert_eq!(response.status_code, 101);
    assert_eq!(response.reason_phrase, "Switching Protocols");
    assert!(response.is_successful("dGhlIHNhbXBsZSBub25jZQ=="));
    assert!(!response.is_successful("another key"));
    assert_eq!(stream, b"after".to_vec());
}

#[test]
fn bytes_to_string_reports_the_std_error() {
    let bad = [0x61u8, 0xff, 0x62];
    let e = websocket::ws::util::bytes_to_string(&bad).unwrap_err();
    assert_eq!(e, std::str::from_utf8(&bad).unwrap_err());
    assert_eq!(e.valid_up_to(), 1);
    assert_eq!(websocket::ws::util::bytes_to_string(b"ok").unwrap(), "ok");
}

#[test]
fn empty_header_collections_iterate_nothing() {
    let h = HeaderCollection::new();
    assert!(h.iter().next().is_none());
    let r = WebSocketResponse::failure(403, "Forbidden");
    assert_eq!(r.status_code, 403);
    assert_eq!(r.reason_phrase, "Forbidden");
    assert!(r.headers.iter().next().is_none());
    let mut g = HeaderCollection::new();
    g.insert("A", "1");
    g.insert("b", "2");
    g.insert("a", "3");
    let mut it = g.iter();
    assert_eq!(it.next(), Some(("a".to_string(), "1, 3".to_string())));
    assert_eq!(it.next(), Some(("b".to_string(), "2".to_string())));
    assert_eq!(it.next(), None);
    assert_eq!(g.remove("A"), Some("1, 3".to_string()));
    let mut it = g.iter();
    assert_eq!(it.next(), Some(("b".to_string(), "2".to_string())));
    assert_eq!(it.next(), None);
}

#[test]
fn message_sizes_are_predicted() {
    let sizes = [0usize, 4, 125, 126, 256, 65535, 65536];
    for &n in sizes.iter() {
        let m = Message::binary(vec![7u8; n]);
        for &masked in [false, true].iter() {
            let mut buf = Vec::new();
            m.serialize(&mut buf, masked).unwrap();
            assert_eq!(buf.len(), m.message_size(masked));
            let len_bytes = if n <= 125 { 1 } else if n <= 65535 { 3 } else { 9 };
            assert_eq!(buf.len(), 1 + len_bytes + if masked { 4 } else { 0 } + n);
        }
    }
    let close = Message::close_because(64, "because".to_string());
    let mut buf = Vec::new();
    close.serialize(&mut buf, false).unwrap();
    assert_eq!(buf.len(), close.message_size(false));
}

#[test]
fn http2_requests_are_not_upgraded() {
    let mut request = valid_request();
    request.version = ProtocolVersion::Http20;
    assert_eq!(
        request.validate(),
        Err(WebSocketError::RequestError(HyperIntoWsError::UnsupportedHttpVersion))
    );
    match into_ws(Vec::<u8>::new(), request, Vec::new()) {
        Err((_, _, _, e)) => assert_eq!(e, HyperIntoWsError::UnsupportedHttpVersion),
        Ok(_) => panic!("an HTTP/2 request was upgraded"),
    }
}

#[test]
fn successful_responses_give_version_13_if_any() {
    let key = "dGhlIHNhbXBsZSBub25jZQ==";
    let mut response = WebSocketResponse::new(key, None);
    assert!(response.is_successful(key));
    response.headers.insert("Sec-WebSocket-Version", "13");
    assert!(response.is_successful(key));
    let mut other = WebSocketResponse::new(key, None);
    other.headers.insert("Sec-WebSocket-Version", "8");
    assert!(!other.is_successful(key));
    let mut both = WebSocketResponse::new(key, None);
    both.headers.insert("Sec-WebSocket-Version", "13, 8");
    assert!(!both.is_successful(key));
}

#[test]
fn request_with_a_given_key() {
    let raw = [0u8; 16];
    let request = WebSocketRequest::new_with_key("ws://example.com/chat", &["chat"], raw).unwrap();
    assert_eq!(request.key(), Some("AAAAAAAAAAAAAAAAAAAAAA==".to_string()));
    assert_eq!(request.host(), Some("example.com:80".to_string()));
    assert_eq!(request.resource_name, "/chat");
}
