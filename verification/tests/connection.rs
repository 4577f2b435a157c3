use websocket::dataframe::{DataFrame, Opcode};
use websocket::message::{Message, OwnedMessage};
use websocket::receiver::Receiver;
use websocket::result::{IoErrorKind, ProtocolErrorKind, WebSocketError};
use websocket::sender::Sender;
use websocket::ws::dataframe::DataFrame as DataFrameable;
use websocket::ws::message::receive::new_receiver;
use websocket::ws::message::send::{message_to_dataframe, new_sender};
use websocket::ws::message::WebSocketMessage;
use websocket::ws::receiver::Receiver as ReceiverTrait;
use websocket::ws::sender::Sender as SenderTrait;

#[test]
fn sender_and_receiver_agree() {
    let mut sender = Sender::new(true);
    assert!(sender.is_masked());
    let mut wire = Vec::new();
    sender.send_message(&mut wire, &Message::text("hello".to_string())).unwrap();
    sender.send_dataframe(&mut wire, &DataFrame::new(true, Opcode::Ping, vec![1])).unwrap();
    let mut receiver = Receiver::new(true);
    assert_eq!(receiver.recv_message(&mut wire).unwrap(), OwnedMessage::Text("hello".to_string()));
    let frame = receiver.recv_dataframe(&mut wire).unwrap();
    assert_eq!(frame.opcode, Opcode::Ping);
    assert!(wire.is_empty());
    assert_eq!(receiver.recv_dataframe(&mut wire).unwrap_err(), WebSocketError::NoDataAvailable);
}

#[test]
fn receiver_reassembles_and_keeps_partial_messages() {
    let mut wire = Vec::new();
    DataFrame::new(false, Opcode::Binary, vec![1, 2]).write_to(&mut wire, false).unwrap();
    let mut receiver = Receiver::new(false);
    // the rest of the message has not arrived yet
    assert_eq!(receiver.recv_message(&mut wire).unwrap_err(), WebSocketError::NoDataAvailable);
    DataFrame::new(true, Opcode::Pong, vec![9]).write_to(&mut wire, false).unwrap();
    DataFrame::new(true, Opcode::Continuation, vec![3]).write_to(&mut wire, false).unwrap();
    assert_eq!(receiver.recv_message(&mut wire).unwrap(), OwnedMessage::Pong(vec![9]));
    assert_eq!(receiver.recv_message(&mut wire).unwrap(), OwnedMessage::Binary(vec![1, 2, 3]));
}

#[test]
fn receiver_refuses_bad_frames() {
    let mut wire = Vec::new();
    DataFrame::new(true, Opcode::Continuation, vec![]).write_to(&mut wire, false).unwrap();
    let mut receiver = Receiver::new(false);
    assert_eq!(
        receiver.recv_message(&mut wire).unwrap_err(),
        WebSocketError::ProtocolError(ProtocolErrorKind::UnexpectedContinuation)
    );
    let mut wire = Vec::new();
    DataFrame::new(true, Opcode::Binary, vec![0; 50]).write_to(&mut wire, false).unwrap();
    let mut small = Receiver::new_with_limits(false, 10, 100);
    assert_eq!(
        small.recv_dataframe(&mut wire).unwrap_err(),
        WebSocketError::IoError(IoErrorKind::InvalidData)
    );
}

#[test]
fn fragments_are_reassembled() {
    let mut sender = new_sender(true);
    let mut wire = Vec::new();
    {
        let mut fragments = sender.fragment();
        fragments.send_fragment(&mut wire, &WebSocketMessage::Text("This ".to_string())).unwrap();
        fragments.send_fragment(&mut wire, &WebSocketMessage::Text("is ".to_string())).unwrap();
        fragments.send_fragment(&mut wire, &WebSocketMessage::Text("a ".to_string())).unwrap();
        assert_eq!(
            fragments.send_fragment(&mut wire, &WebSocketMessage::Ping(vec![])).unwrap_err(),
            WebSocketError::IoError(IoErrorKind::InvalidInput)
        );
        fragments.finish(&mut wire, &WebSocketMessage::Text("message.".to_string())).unwrap();
    }
    sender.send_message(&mut wire, &WebSocketMessage::Ping(vec![7])).unwrap();
    let mut receiver = new_receiver();
    assert_eq!(
        receiver.receive_message(&mut wire).unwrap(),
        WebSocketMessage::Text("This is a message.".to_string())
    );
    let mut incoming = receiver.incoming();
    assert_eq!(incoming.next(&mut wire), Some(Ok(WebSocketMessage::Ping(vec![7]))));
    assert!(wire.is_empty());
}

#[test]
fn wire_messages_are_masked_on_request() {
    let m = WebSocketMessage::Binary(vec![1, 2, 3]);
    let plain = message_to_dataframe(&m, false, true);
    assert_eq!(plain.data, vec![1, 2, 3]);
    assert_eq!(plain.mask, None);
    let masked = message_to_dataframe(&m, true, true);
    let key = masked.mask.unwrap();
    let expected: Vec<u8> = vec![1 ^ key[0], 2 ^ key[1], 3 ^ key[2]];
    assert_eq!(masked.data, expected);
}

#[test]
fn wire_receiver_errors() {
    let mut receiver = new_receiver();
    let mut wire = Vec::new();
    let mut sender = new_sender(false);
    let mut fragments = sender.fragment();
    fragments.finish(&mut wire, &WebSocketMessage::Binary(vec![0xff])).unwrap();
    assert_eq!(
        receiver.receive_message(&mut wire).unwrap(),
        WebSocketMessage::Binary(vec![0xff])
    );
    // a text message that is not UTF-8
    let mut wire = vec![0x81, 1, 0xff];
    assert_eq!(receiver.receive_message(&mut wire).unwrap_err(), WebSocketError::Utf8Error);
    // a continuation with nothing begun
    let mut wire = vec![0x80, 0];
    assert_eq!(
        receiver.receive_message(&mut wire).unwrap_err(),
        WebSocketError::ProtocolError(ProtocolErrorKind::UnexpectedContinuation)
    );
}

#[test]
fn control_messages_interleave_with_fragments() {
    let mut sender = new_sender(false);
    let mut wire = Vec::new();
    let mut fragments = sender.fragment();
    fragments.send_fragment(&mut wire, &WebSocketMessage::Binary(vec![1, 2])).unwrap();
    sender.send_message(&mut wire, &WebSocketMessage::Pong(vec![5])).unwrap();
    let mut receiver = new_receiver();
    // the first fragment alone forms no message yet
    let mut first = wire[..4].to_vec();
    assert!(receiver.receive_message(&mut first).is_err());
    let mut rest = wire[4..].to_vec();
    // the pong is handed out at once, and the fragmented message is kept
    assert_eq!(receiver.receive_message(&mut rest).unwrap(), WebSocketMessage::Pong(vec![5]));
    let mut tail = Vec::new();
    fragments.finish(&mut tail, &WebSocketMessage::Binary(vec![3])).unwrap();
    // the final fragment is a continuation of the message begun before
    assert_eq!(tail[0], 0x80);
    assert_eq!(receiver.receive_message(&mut tail).unwrap(), WebSocketMessage::Binary(vec![1, 2, 3]));
}
