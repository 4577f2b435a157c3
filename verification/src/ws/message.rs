//! The generic WebSocket message: a value that is sent as one frame and
//! formed from the frames of one message.

pub mod dataframe;
pub mod receive;
pub mod send;

use crate::dataframe::FrameView;
use crate::result::{WebSocketError, WebSocketResult};
use crate::ws::dataframe::{frame_bytes, frame_size_of, frame_writable, frames_summary, DataFrame};
use vstd::prelude::*;

verus! {

/// A trait for WebSocket messages
pub trait Message: DataFrame {
    /// Whether `r` is what forming a message from `frames` gives.
    spec fn formed_from(frames: Seq<FrameView>, r: Result<Self, WebSocketError>) -> bool;

    /// Writes this message to the writer
    fn serialize(&self, writer: &mut Vec<u8>, masked: bool) -> (r: WebSocketResult<()>)
        requires
            self.reserved_view().len() == 3,
            self.payload_view().len() <= usize::MAX,
        ensures
            match r {
                Ok(()) => frame_writable(self.opcode_view(), self.payload_view().len()) && exists|
                    key: Option<Seq<u8>>,
                |
                    #![trigger frame_bytes(self.last_view(), self.reserved_view(), self.opcode_view(), self.payload_view(), key)]
                    (key is Some) == masked && (key matches Some(k) ==> k.len() == 4)
                        && final(writer)@ == old(writer)@ + frame_bytes(
                        self.last_view(),
                        self.reserved_view(),
                        self.opcode_view(),
                        self.payload_view(),
                        key,
                    ),
                Err(e) => !frame_writable(self.opcode_view(), self.payload_view().len())
                    && final(writer)@ == old(writer)@,
            },
    {
        self.write_to(writer, masked)
    }

    /// Returns how many bytes this message will take up
    fn message_size(&self, masked: bool) -> (n: usize)
        requires
            self.payload_view().len() + 14 <= usize::MAX,
        ensures
            n == frame_size_of(self.payload_view().len(), masked),
    {
        self.frame_size(masked)
    }

    /// Attempt to form a message from a series of data frames
    fn from_dataframes<D: DataFrame>(frames: Vec<D>) -> (r: WebSocketResult<Self>)
        ensures
            Self::formed_from(frames_summary(frames@), r),
    ;
}

/// For every message type (`Message` and `OwnedMessage` alike), the bytes
/// `serialize` writes for a message number exactly its predicted size, which
/// is what `message_size` and `frame_size` return: one byte of flags and
/// opcode, one, three or nine bytes of length (as the payload fits 125,
/// 65535 bytes or more), four bytes of masking key when masked, and the
/// payload. Writing succeeds for any opcode up to 15 but a control opcode
/// with a payload of 126 bytes or more.
pub proof fn lemma_message_size<M: Message>(m: M, key: Option<Seq<u8>>)
    requires
        m.payload_view().len() <= u64::MAX,
        key matches Some(k) ==> k.len() == 4,
    ensures
        frame_bytes(m.last_view(), m.reserved_view(), m.opcode_view(), m.payload_view(), key).len()
            == frame_size_of(m.payload_view().len(), key is Some),
        frame_size_of(m.payload_view().len(), key is Some) == 1 + (if m.payload_view().len() <= 125 {
            1nat
        } else if m.payload_view().len() <= 65535 {
            3nat
        } else {
            9nat
        }) + (if key is Some {
            4nat
        } else {
            0nat
        }) + m.payload_view().len(),
        m.opcode_view() <= 15 ==> (frame_writable(m.opcode_view(), m.payload_view().len()) <==> !(
        m.opcode_view() >= 8 && m.payload_view().len() >= 126)),
{
    crate::ws::dataframe::lemma_frame_bytes_len(
        m.last_view(),
        m.reserved_view(),
        m.opcode_view(),
        m.payload_view(),
        key,
    );
}

/// Represents a WebSocket message. When receiving messages, the resulting
/// messages are always entire messages (never fragments). You are able to,
/// however, send messages as fragments using a WebSocketFragmentSerializer.
/// These messages will be sent to the remote endpoint and reassembled into
/// a single message.
#[derive(Debug, Clone, PartialEq, Eq)]
pub enum WebSocketMessage {
    /// A message containing UTF-8 text data
    Text(String),
    /// A message containing binary data
    Binary(Vec<u8>),
    /// A message which indicates closure of the WebSocket connection.
    /// This message may or may not contain data
    Close(Vec<u8>),
    /// A ping message - should be responded to with a pong message.
    /// Usually the pong message will be sent with the same data as the
    /// received ping message.
    Ping(Vec<u8>),
    /// A pong message
    Pong(Vec<u8>),
}

/// The mathematical content of a WebSocket message.
pub enum WsMessageView {
    Text(Seq<char>),
    Binary(Seq<u8>),
    Close(Seq<u8>),
    Ping(Seq<u8>),
    Pong(Seq<u8>),
}

impl View for WebSocketMessage {
    type V = WsMessageView;

    open spec fn view(&self) -> WsMessageView {
        match self {
            WebSocketMessage::Text(t) => WsMessageView::Text(t@),
            WebSocketMessage::Binary(b) => WsMessageView::Binary(b@),
            WebSocketMessage::Close(b) => WsMessageView::Close(b@),
            WebSocketMessage::Ping(b) => WsMessageView::Ping(b@),
            WebSocketMessage::Pong(b) => WsMessageView::Pong(b@),
        }
    }
}

/// The opcode nibble a message is sent with.
pub open spec fn ws_message_opcode(m: WsMessageView) -> u8 {
    match m {
        WsMessageView::Text(_) => 1,
        WsMessageView::Binary(_) => 2,
        WsMessageView::Close(_) => 8,
        WsMessageView::Ping(_) => 9,
        WsMessageView::Pong(_) => 10,
    }
}

/// The payload a message is sent with.
pub open spec fn ws_message_payload(m: WsMessageView) -> Seq<u8> {
    match m {
        WsMessageView::Text(t) => vstd::utf8::encode_utf8(t),
        WsMessageView::Binary(b) => b,
        WsMessageView::Close(b) => b,
        WsMessageView::Ping(b) => b,
        WsMessageView::Pong(b) => b,
    }
}

} // verus!
