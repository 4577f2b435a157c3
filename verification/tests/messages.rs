use websocket::codec::ws::{Context, DataFrameCodec, MessageCodec};
use websocket::dataframe::{DataFrame, Opcode};
use websocket::message::{CloseData, Message, OwnedMessage, Type, WebSocketMessage};
use websocket::result::{ProtocolErrorKind, WebSocketError};
use websocket::ws::dataframe::DataFrame as DataFrameable;
use websocket::ws::message::dataframe::WebSocketOpcode;
use websocket::ws::message::Message as MessageTrait;

#[test]
fn owned_message_predicts_size() {
    let messages = vec![
        OwnedMessage::Text("nilbog".to_string()),
        OwnedMessage::Binary(vec![1, 2, 3, 4]),
        OwnedMessage::Binary(vec![42; 256]),
        OwnedMessage::Binary(vec![42; 65535]),
        OwnedMessage::Binary(vec![42; 65555]),
        OwnedMessage::Ping("beep".to_string().into_bytes()),
        OwnedMessage::Pong("boop".to_string().into_bytes()),
        OwnedMessage::Close(None),
        OwnedMessage::Close(Some(CloseData { status_code: 64, reason: "because".to_string() })),
    ];

    for message in messages.into_iter() {
        let masked_predicted = message.message_size(true);
        let mut masked_buf = Vec::new();
        message.serialize(&mut masked_buf, true).unwrap();
        assert_eq!(masked_buf.len(), masked_predicted);

        let unmasked_predicted = message.message_size(false);
        let mut unmasked_buf = Vec::new();
        message.serialize(&mut unmasked_buf, false).unwrap();
        assert_eq!(unmasked_buf.len(), unmasked_predicted);
    }
}

#[test]
fn cow_message_predicts_size() {
    let messages = vec![
        Message::binary(vec![1, 2, 3, 4]),
        Message::binary(vec![42; 256]),
        Message::binary(vec![42; 65535]),
        Message::binary(vec![42; 65555]),
        Message::text("nilbog".to_string()),
        Message::ping("beep".to_string().into_bytes()),
        Message::pong("boop".to_string().into_bytes()),
        Message::close(),
        Message::close_because(64, "because".to_string()),
    ];

    for message in messages.iter() {
        let masked_predicted = message.message_size(true);
        let mut masked_buf = Vec::new();
        message.serialize(&mut masked_buf, true).unwrap();
        assert_eq!(masked_buf.len(), masked_predicted);

        let unmasked_predicted = message.message_size(false);
        let mut unmasked_buf = Vec::new();
        message.serialize(&mut unmasked_buf, false).unwrap();
        assert_eq!(unmasked_buf.len(), unmasked_predicted);
    }
}

#[test]
fn message_codec_client_send_receive() {
    let mut input = Vec::new();
    Message::text("50 schmeckels".to_string()).serialize(&mut input, false).unwrap();

    let mut client: MessageCodec<Message> = MessageCodec::new(Context::Client);
    let m = client.decode(&mut input).unwrap();
    assert_eq!(m, Some(OwnedMessage::Text("50 schmeckels".to_string())));
    assert!(input.is_empty());

    let mut output = Vec::new();
    client.encode(Message::text("ethan bradberry".to_string()), &mut output).unwrap();

    let mut server = MessageCodec::default(Context::Server);
    let message = server.decode(&mut output).unwrap();
    assert_eq!(
        message,
        Some(OwnedMessage::from_message(Message::text("ethan bradberry".to_string())))
    );
}

#[test]
fn message_codec_server_send_receive() {
    let mut input = Vec::new();
    Message::text("50 schmeckels".to_string()).serialize(&mut input, true).unwrap();

    let mut server: MessageCodec<Message> = MessageCodec::new(Context::Server);
    let m = server.decode(&mut input).unwrap();
    assert_eq!(m, Some(OwnedMessage::Text("50 schmeckels".to_string())));

    let mut sent = Vec::new();
    server.encode(Message::text("ethan bradberry".to_string()), &mut sent).unwrap();
    let mut written = vec![];
    Message::text("ethan bradberry".to_string()).serialize(&mut written, false).unwrap();
    assert_eq!(written, sent);
}

#[test]
fn codec_reassembles_fragments_around_control_frames() {
    let mut bytes = Vec::new();
    DataFrame::new(false, Opcode::Text, b"Hel".to_vec()).write_to(&mut bytes, true).unwrap();
    DataFrame::new(true, Opcode::Ping, b"p".to_vec()).write_to(&mut bytes, true).unwrap();
    DataFrame::new(true, Opcode::Continuation, b"lo".to_vec()).write_to(&mut bytes, true).unwrap();
    let mut codec = MessageCodec::default(Context::Server);
    // the ping comes first, the text message stays buffered
    assert_eq!(codec.decode(&mut bytes).unwrap(), Some(OwnedMessage::Ping(b"p".to_vec())));
    assert_eq!(codec.decode(&mut bytes).unwrap(), Some(OwnedMessage::Text("Hello".to_string())));
    assert!(bytes.is_empty());
    assert_eq!(codec.decode(&mut bytes).unwrap(), None);
}

#[test]
fn codec_refuses_bad_sequences() {
    let mut bytes = Vec::new();
    DataFrame::new(true, Opcode::Continuation, b"x".to_vec()).write_to(&mut bytes, false).unwrap();
    let mut codec = MessageCodec::default(Context::Client);
    assert_eq!(
        codec.decode(&mut bytes),
        Err(WebSocketError::ProtocolError(ProtocolErrorKind::UnexpectedContinuation))
    );

    let mut bytes = Vec::new();
    DataFrame::new(false, Opcode::Text, b"a".to_vec()).write_to(&mut bytes, false).unwrap();
    DataFrame::new(true, Opcode::Binary, b"b".to_vec()).write_to(&mut bytes, false).unwrap();
    let mut codec = MessageCodec::default(Context::Client);
    assert_eq!(
        codec.decode(&mut bytes),
        Err(WebSocketError::ProtocolError(ProtocolErrorKind::UnexpectedDataFrameOpcode))
    );

    let mut bytes = Vec::new();
    DataFrame::new(true, Opcode::Binary, vec![0; 20]).write_to(&mut bytes, false).unwrap();
    let mut codec: MessageCodec<OwnedMessage> = MessageCodec::new_with_limits(Context::Client, 10, 100);
    assert_eq!(
        codec.decode(&mut bytes),
        Err(WebSocketError::ProtocolError(ProtocolErrorKind::ExceededDataFrameSize))
    );

    let mut bytes = Vec::new();
    DataFrame::new(false, Opcode::Binary, vec![0; 20]).write_to(&mut bytes, false).unwrap();
    let mut codec: MessageCodec<OwnedMessage> = MessageCodec::new_with_limits(Context::Client, 100, 50);
    assert_eq!(
        codec.decode(&mut bytes),
        Err(WebSocketError::ProtocolError(ProtocolErrorKind::ExceededMessageSize))
    );
}

#[test]
fn dataframe_codec_waits_for_whole_frames() {
    let mut codec = DataFrameCodec::default(Context::Client);
    let mut bytes = Vec::new();
    DataFrame::new(true, Opcode::Binary, vec![5; 10]).write_to(&mut bytes, false).unwrap();
    let mut partial = bytes[..5].to_vec();
    assert_eq!(codec.decode(&mut partial).unwrap(), None);
    assert_eq!(partial.len(), 5);
    let frame = codec.decode(&mut bytes).unwrap().unwrap();
    assert_eq!(frame.data, vec![5; 10]);
    assert!(bytes.is_empty());
}

#[test]
fn message_formation() {
    let frames = vec![
        DataFrame::new(false, Opcode::Text, b"ab".to_vec()),
        DataFrame::new(true, Opcode::Continuation, b"cd".to_vec()),
    ];
    let m = Message::from_dataframes(frames).unwrap();
    assert_eq!(m.opcode, Type::Text);
    assert_eq!(m.payload, b"abcd".to_vec());
    let none: Vec<DataFrame> = Vec::new();
    assert_eq!(
        Message::from_dataframes(none).unwrap_err(),
        WebSocketError::ProtocolError(ProtocolErrorKind::NoDataframes)
    );
    let bad = vec![DataFrame::new(true, Opcode::Text, vec![0xff])];
    assert_eq!(OwnedMessage::from_dataframes(bad).unwrap_err(), WebSocketError::Utf8Error);
    let close = vec![DataFrame::new(true, Opcode::Close, vec![3, 232, b'b', b'y', b'e'])];
    assert_eq!(
        OwnedMessage::from_dataframes(close).unwrap(),
        OwnedMessage::Close(Some(CloseData::new(1000, "bye".to_string())))
    );
}

#[test]
fn close_data_bytes() {
    let c = CloseData::new(1000, "bye".to_string());
    assert_eq!(c.into_bytes().unwrap(), vec![3, 232, b'b', b'y', b'e']);
}

#[test]
fn pong_from_ping() {
    let mut m = Message::ping(vec![1, 2]);
    assert!(m.into_pong().is_ok());
    assert_eq!(m.opcode, Type::Pong);
    let mut t = Message::text("x".to_string());
    assert!(t.into_pong().is_err());
}

#[test]
fn owned_message_kinds() {
    assert!(OwnedMessage::Close(None).is_close());
    assert!(OwnedMessage::Ping(vec![]).is_control());
    assert!(OwnedMessage::Binary(vec![]).is_data());
    assert!(OwnedMessage::Ping(vec![]).is_ping());
    assert!(OwnedMessage::Pong(vec![]).is_pong());
    assert!(!OwnedMessage::Text(String::new()).is_control());
}

#[test]
fn messages_from_data() {
    assert_eq!(
        WebSocketMessage::from_data(WebSocketOpcode::Close, vec![3, 232, b'o', b'k']).unwrap(),
        WebSocketMessage::Close(Some(CloseData::new(1000, "ok".to_string())))
    );
    assert_eq!(
        WebSocketMessage::from_data(WebSocketOpcode::Close, vec![]).unwrap(),
        WebSocketMessage::Close(None)
    );
    assert_eq!(
        WebSocketMessage::from_data(WebSocketOpcode::Text, vec![0xc3]).unwrap_err(),
        WebSocketError::Utf8Error
    );
    assert_eq!(
        WebSocketMessage::from_data(WebSocketOpcode::Control2, vec![]).unwrap_err(),
        WebSocketError::ProtocolError(ProtocolErrorKind::UnsupportedOpcode)
    );
    let df = WebSocketMessage::Text("hi".to_string()).into_dataframe().unwrap();
    assert!(df.finished);
    assert_eq!(df.opcode, WebSocketOpcode::Text);
    assert_eq!(df.data, b"hi".to_vec());
    assert_eq!(df.mask, None);
}
