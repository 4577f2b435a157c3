//! The default implementation of messages.

use crate::dataframe::{opcode_value, FrameView, Opcode};
use crate::result::{ProtocolErrorKind, WebSocketError, WebSocketResult};
use crate::ws::dataframe::{frame_writable, frames_summary, DataFrame as DataFrameTrait};
use crate::ws::message::Message as MessageTrait;
use crate::ws::message::dataframe::{
    wire_length, WebSocketDataFrame, WebSocketOpcode, WireFrameView, ws_opcode_value,
};
use crate::ws::util::buffer::{copy_bytes, extend_bytes};
use crate::ws::util::byte_order::{be16_bytes, be16_value, read_be_u16, write_be_u16};
use crate::ws::util::{bytes_to_string, lossy_utf8, str_from_utf8, text_of_bytes};
use vstd::prelude::*;
use vstd::slice::slice_subrange;
use vstd::utf8::{decode_utf8, encode_utf8, valid_utf8};

verus! {

/// Valid types of messages (in the default implementation)
#[derive(Debug, Eq, PartialEq, Clone, Copy, Structural)]
pub enum Type {
    /// Message with UTF8 test
    Text,
    /// Message containing binary data
    Binary,
    /// Ping message with data
    Ping,
    /// Pong message with data
    Pong,
    /// Close connection message with optional reason
    Close,
}

/// The opcode nibble of a message type.
pub open spec fn type_value(t: Type) -> u8 {
    match t {
        Type::Text => 1,
        Type::Binary => 2,
        Type::Ping => 9,
        Type::Pong => 10,
        Type::Close => 8,
    }
}

impl Type {
    /// The opcode nibble of this message type.
    pub fn to_u8(&self) -> (v: u8)
        ensures
            v == type_value(*self),
    {
        match self {
            Type::Text => 1,
            Type::Binary => 2,
            Type::Ping => 9,
            Type::Pong => 10,
            Type::Close => 8,
        }
    }
}

/// The mathematical content of a message.
pub struct MessageView {
    pub opcode: Type,
    pub cd_status_code: Option<u16>,
    pub payload: Seq<u8>,
}

/// Represents a WebSocket message.
///
/// A message is sent as one single data frame.
#[derive(Eq, PartialEq, Clone, Debug)]
pub struct Message {
    /// Type of WebSocket message
    pub opcode: Type,
    /// Optional status code to send when closing a connection.
    /// (only used if this message is of Type::Close)
    pub cd_status_code: Option<u16>,
    /// Main payload
    pub payload: Vec<u8>,
}

impl View for Message {
    type V = MessageView;

    open spec fn view(&self) -> MessageView {
        MessageView {
            opcode: self.opcode,
            cd_status_code: self.cd_status_code,
            payload: self.payload@,
        }
    }
}

/// The bytes of a close status code on the wire, if any.
pub open spec fn status_bytes(code: Option<u16>) -> Seq<u8> {
    match code {
        Some(c) => be16_bytes(c),
        None => Seq::empty(),
    }
}

/// Values that can be the payload of a message.
pub trait IntoCowBytes {
    /// The bytes of the value.
    spec fn bytes_view(&self) -> Seq<u8>;

    /// Consume `self` and produce its bytes.
    fn into(self) -> (v: Vec<u8>)
        ensures
            v@ == self.bytes_view(),
    ;
}

impl IntoCowBytes for Vec<u8> {
    open spec fn bytes_view(&self) -> Seq<u8> {
        self@
    }

    fn into(self) -> (v: Vec<u8>) {
        self
    }
}

impl<'a> IntoCowBytes for &'a [u8] {
    open spec fn bytes_view(&self) -> Seq<u8> {
        self@
    }

    fn into(self) -> (v: Vec<u8>) {
        copy_bytes(self)
    }
}

impl Message {
    fn new(code: Type, status: Option<u16>, payload: Vec<u8>) -> (m: Self)
        ensures
            m@ == (MessageView { opcode: code, cd_status_code: status, payload: payload@ }),
    {
        Message { opcode: code, cd_status_code: status, payload }
    }

    /// Create a new WebSocket message with text data
    pub fn text(data: String) -> (m: Self)
        ensures
            m@ == (MessageView {
                opcode: Type::Text,
                cd_status_code: None,
                payload: encode_utf8(data@),
            }),
    {
        Message::new(Type::Text, None, copy_bytes(data.as_str().as_bytes()))
    }

    /// Create a new WebSocket message with binary data
    pub fn binary<B: IntoCowBytes>(data: B) -> (m: Self)
        ensures
            m@ == (MessageView { opcode: Type::Binary, cd_status_code: None, payload: data.bytes_view() }),
    {
        Message::new(Type::Binary, None, IntoCowBytes::into(data))
    }

    /// Create a new WebSocket message that signals the end of a WebSocket
    /// connection, although messages can still be sent after sending this
    pub fn close() -> (m: Self)
        ensures
            m@ == (MessageView {
                opcode: Type::Close,
                cd_status_code: None,
                payload: Seq::empty(),
            }),
    {
        Message::new(Type::Close, None, Vec::new())
    }

    /// Create a new WebSocket message that signals the end of a WebSocket
    /// connection and provide a text reason and a status code for why.
    /// Messages can still be sent after sending this message.
    pub fn close_because(code: u16, reason: String) -> (m: Self)
        ensures
            m@ == (MessageView {
                opcode: Type::Close,
                cd_status_code: Some(code),
                payload: encode_utf8(reason@),
            }),
    {
        Message::new(Type::Close, Some(code), copy_bytes(reason.as_str().as_bytes()))
    }

    /// Create a ping WebSocket message, a pong is usually sent back
    /// after sending this with the same data
    pub fn ping<B: IntoCowBytes>(data: B) -> (m: Self)
        ensures
            m@ == (MessageView { opcode: Type::Ping, cd_status_code: None, payload: data.bytes_view() }),
    {
        Message::new(Type::Ping, None, IntoCowBytes::into(data))
    }

    /// Create a pong WebSocket message, usually a response to a
    /// ping message
    pub fn pong<B: IntoCowBytes>(data: B) -> (m: Self)
        ensures
            m@ == (MessageView { opcode: Type::Pong, cd_status_code: None, payload: data.bytes_view() }),
    {
        Message::new(Type::Pong, None, IntoCowBytes::into(data))
    }

    /// Convert a ping message to a pong, keeping the data.
    /// This will fail if the original message is not a ping.
    pub fn into_pong(&mut self) -> (r: Result<(), ()>)
        ensures
            r is Ok <==> old(self).opcode == Type::Ping,
            r is Ok ==> final(self)@ == (MessageView { opcode: Type::Pong, ..old(self)@ }),
            r is Err ==> final(self)@ == old(self)@,
    {
        if self.opcode == Type::Ping {
            self.opcode = Type::Pong;
            Ok(())
        } else {
            Err(())
        }
    }
}

impl DataFrameTrait for Message {
    open spec fn last_view(&self) -> bool {
        true
    }

    open spec fn opcode_view(&self) -> u8 {
        type_value(self.opcode)
    }

    open spec fn reserved_view(&self) -> Seq<bool> {
        seq![false, false, false]
    }

    open spec fn payload_view(&self) -> Seq<u8> {
        status_bytes(self.cd_status_code) + self.payload@
    }

    fn is_last(&self) -> (b: bool) {
        true
    }

    fn opcode(&self) -> (o: u8) {
        self.opcode.to_u8()
    }

    fn reserved(&self) -> (r: [bool; 3]) {
        let r = [false, false, false];
        assert(r@ =~= seq![false, false, false]);
        r
    }

    fn size(&self) -> (n: usize) {
        self.payload.len() + if self.cd_status_code.is_some() {
            2
        } else {
            0
        }
    }

    fn write_payload(&self, out: &mut Vec<u8>) {
        let ghost start = out@;
        if let Some(reason) = self.cd_status_code {
            let b = write_be_u16(reason);
            out.push(b[0]);
            out.push(b[1]);
            assert(out@ =~= start + be16_bytes(reason));
        } else {
            assert(out@ =~= start + Seq::<u8>::empty());
        }
        extend_bytes(out, self.payload.as_slice());
        assert(out@ =~= start + (status_bytes(self.cd_status_code) + self.payload@));
    }

    fn take_payload(self) -> (v: Vec<u8>) {
        let mut buf: Vec<u8> = Vec::new();
        self.write_payload(&mut buf);
        assert(buf@ =~= self.payload_view());
        buf
    }
}

/// The error with which frame `i` of a message is refused, if any.
pub open spec fn frame_error(fs: Seq<FrameView>, i: int) -> Option<WebSocketError> {
    if i > 0 && fs[i].opcode != 0 {
        Some(WebSocketError::ProtocolError(ProtocolErrorKind::UnexpectedNonContinuation))
    } else if fs[i].reserved != seq![false, false, false] {
        Some(WebSocketError::ProtocolError(ProtocolErrorKind::UnsupportedReservedBits))
    } else {
        None
    }
}

/// The first error among frames `i..` of a message, if any.
pub open spec fn first_frame_error(fs: Seq<FrameView>, i: nat) -> Option<WebSocketError>
    decreases fs.len() - i,
{
    if i >= fs.len() {
        None
    } else {
        match frame_error(fs, i as int) {
            Some(e) => Some(e),
            None => first_frame_error(fs, i + 1),
        }
    }
}

/// The payloads of the first `n` frames, joined.
pub open spec fn joined_payload(fs: Seq<FrameView>, n: nat) -> Seq<u8>
    decreases n,
{
    if n == 0 || n > fs.len() {
        Seq::empty()
    } else {
        joined_payload(fs, (n - 1) as nat) + fs[n - 1].data
    }
}

/// The message that a first opcode and a joined payload stand for, or the
/// error with which they are refused.
pub open spec fn message_of_payload(op: u8, data: Seq<u8>) -> Result<MessageView, WebSocketError> {
    if op == 1 {
        if valid_utf8(data) {
            Ok(MessageView { opcode: Type::Text, cd_status_code: None, payload: data })
        } else {
            Err(WebSocketError::Utf8Error)
        }
    } else if op == 2 {
        Ok(MessageView { opcode: Type::Binary, cd_status_code: None, payload: data })
    } else if op == 8 {
        if data.len() == 0 {
            Ok(MessageView { opcode: Type::Close, cd_status_code: None, payload: data })
        } else if data.len() < 2 {
            Err(WebSocketError::NoDataAvailable)
        } else if valid_utf8(data.subrange(2, data.len() as int)) {
            Ok(
                MessageView {
                    opcode: Type::Close,
                    cd_status_code: Some(be16_value(data)),
                    payload: data.subrange(2, data.len() as int),
                },
            )
        } else {
            Err(WebSocketError::Utf8Error)
        }
    } else if op == 9 {
        Ok(MessageView { opcode: Type::Ping, cd_status_code: None, payload: data })
    } else if op == 10 {
        Ok(MessageView { opcode: Type::Pong, cd_status_code: None, payload: data })
    } else {
        Err(WebSocketError::ProtocolError(ProtocolErrorKind::UnsupportedOpcode))
    }
}

/// The message formed from the frames `fs`, or the error with which they are refused.
pub open spec fn message_from_frames(fs: Seq<FrameView>) -> Result<MessageView, WebSocketError> {
    if fs.len() == 0 {
        Err(WebSocketError::ProtocolError(ProtocolErrorKind::NoDataframes))
    } else {
        match first_frame_error(fs, 0) {
            Some(e) => Err(e),
            None => message_of_payload(fs[0].opcode, joined_payload(fs, fs.len())),
        }
    }
}

/// When frames `0..i` are all accepted, the first error is among frames `i..`.
proof fn lemma_first_error_skip(fs: Seq<FrameView>, i: nat)
    requires
        i <= fs.len(),
        forall|j: int| 0 <= j < i ==> frame_error(fs, j) is None,
    ensures
        first_frame_error(fs, 0) == first_frame_error(fs, i),
    decreases i,
{
    if i > 0 {
        lemma_first_error_skip(fs, (i - 1) as nat);
    }
}

/// Forms a message from the frames of one message.
fn message_from_dataframes<D: DataFrameTrait>(frames: Vec<D>) -> (r: WebSocketResult<Message>)
    ensures
        match message_from_frames(frames_summary(frames@)) {
            Ok(mv) => r matches Ok(m) && m@ == mv,
            Err(e) => r == Err::<Message, WebSocketError>(e),
        },
{
    let ghost orig = frames@;
    let ghost fs = frames_summary(frames@);
    if frames.len() == 0 {
        return Err(WebSocketError::ProtocolError(ProtocolErrorKind::NoDataframes));
    }
    let opcode = frames[0].opcode();
    let n = frames.len();
    assert(fs.len() == n);
    let mut rest = frames;
    let mut data: Vec<u8> = Vec::new();
    let mut i: usize = 0;
    while rest.len() > 0
        invariant
            n == orig.len(),
            orig == frames@,
            fs == frames_summary(orig),
            i + rest@.len() == n,
            rest@ == orig.subrange(i as int, n as int),
            data@ == joined_payload(fs, i as nat),
            forall|j: int| 0 <= j < i ==> frame_error(fs, j) is None,
        decreases rest@.len(),
    {
        let df = rest.remove(0);
        assert(df == orig[i as int]);
        assert(fs[i as int] == crate::ws::dataframe::frame_summary(df));
        if i > 0 && df.opcode() != 0 {
            proof {
                lemma_first_error_skip(fs, i as nat);
                assert(frame_error(fs, i as int) == Some(
                    WebSocketError::ProtocolError(ProtocolErrorKind::UnexpectedNonContinuation),
                ));
                assert(first_frame_error(fs, i as nat) == frame_error(fs, i as int));
                assert(message_from_frames(fs) == Err::<MessageView, WebSocketError>(
                    WebSocketError::ProtocolError(ProtocolErrorKind::UnexpectedNonContinuation),
                ));
                
            }
            return Err(WebSocketError::ProtocolError(ProtocolErrorKind::UnexpectedNonContinuation));
        }
        let r = df.reserved();
        if r[0] || r[1] || r[2] {
            proof {
                lemma_first_error_skip(fs, i as nat);
                assert(r@ != seq![false, false, false]) by {
                    if r@ == seq![false, false, false] {
                        assert(r@[0] == false);
                        assert(r@[1] == false);
                        assert(r@[2] == false);
                    }
                }
                assert(frame_error(fs, i as int) == Some(
                    WebSocketError::ProtocolError(ProtocolErrorKind::UnsupportedReservedBits),
                ));
                assert(first_frame_error(fs, i as nat) == frame_error(fs, i as int));
            }
            return Err(WebSocketError::ProtocolError(ProtocolErrorKind::UnsupportedReservedBits));
        }
        assert(r@ =~= seq![false, false, false]);
        let mut p = df.take_payload();
        let ghost before = data@;
        data.append(&mut p);
        assert(data@ == before + fs[i as int].data);
        i = i + 1;
        assert(joined_payload(fs, i as nat) == joined_payload(fs, (i - 1) as nat) + fs[i - 1].data);
        assert(rest@ =~= orig.subrange(i as int, n as int));
    }
    proof {
        lemma_first_error_skip(fs, n as nat);
        assert(first_frame_error(fs, n as nat) is None);
    }
    assert(fs[0].opcode == opcode);
    assert(data@ == joined_payload(fs, fs.len()));
    if opcode == 1 {
        if str_from_utf8(data.as_slice()).is_err() {
            return Err(WebSocketError::Utf8Error);
        }
    }
    let msg = match Opcode::new(opcode) {
        Some(Opcode::Text) => Message { opcode: Type::Text, cd_status_code: None, payload: data },
        Some(Opcode::Binary) => Message::binary(data),
        Some(Opcode::Close) => {
            if data.len() > 0 {
                if data.len() < 2 {
                    return Err(WebSocketError::NoDataAvailable);
                }
                let status_code = read_be_u16(data.as_slice());
                let reason = match bytes_to_string(slice_subrange(data.as_slice(), 2, data.len())) {
                    Ok(s) => s,
                    Err(_) => {
                        return Err(WebSocketError::Utf8Error);
                    },
                };
                proof {
                    vstd::utf8::decode_utf8_encode_utf8(data@.subrange(2, data@.len() as int));
                }
                Message::close_because(status_code, reason)
            } else {
                assert(data@ =~= Seq::<u8>::empty());
                Message::close()
            }
        },
        Some(Opcode::Ping) => Message::ping(data),
        Some(Opcode::Pong) => Message::pong(data),
        _ => {
            return Err(WebSocketError::ProtocolError(ProtocolErrorKind::UnsupportedOpcode));
        },
    };
    Ok(msg)
}

impl MessageTrait for Message {
    open spec fn formed_from(frames: Seq<FrameView>, r: Result<Self, WebSocketError>) -> bool {
        match message_from_frames(frames) {
            Ok(mv) => r matches Ok(m) && m@ == mv,
            Err(e) => r == Err::<Self, WebSocketError>(e),
        }
    }

    /// Attempt to form a message from a series of data frames
    fn from_dataframes<D: DataFrameTrait>(frames: Vec<D>) -> (r: WebSocketResult<Self>) {
        message_from_dataframes(frames)
    }
}

/// Represents data contained in a Close message
#[derive(Eq, PartialEq, Clone, Debug)]
pub struct CloseData {
    /// The status-code of the CloseData
    pub status_code: u16,
    /// The reason-phrase of the CloseData
    pub reason: String,
}

impl CloseData {
    /// Create a new CloseData object
    pub fn new(status_code: u16, reason: String) -> (c: CloseData)
        ensures
            c.status_code == status_code,
            c.reason@ == reason@,
    {
        CloseData { status_code, reason }
    }

    /// Convert this into a vector of bytes
    pub fn into_bytes(self) -> (r: WebSocketResult<Vec<u8>>)
        ensures
            r matches Ok(v) && v@ == be16_bytes(self.status_code) + encode_utf8(self.reason@),
    {
        let mut buf: Vec<u8> = Vec::new();
        let b = write_be_u16(self.status_code);
        buf.push(b[0]);
        buf.push(b[1]);
        assert(buf@ =~= be16_bytes(self.status_code));
        extend_bytes(&mut buf, self.reason.as_str().as_bytes());
        Ok(buf)
    }
}

/// The mathematical content of an owned message.
pub enum OwnedView {
    Text(Seq<char>),
    Binary(Seq<u8>),
    Close(Option<(u16, Seq<char>)>),
    Ping(Seq<u8>),
    Pong(Seq<u8>),
}

/// Represents an owned WebSocket message.
///
/// `OwnedMessage`s are generated when the user receives a message (since the data
/// has to be copied out of the network buffer anyway).
#[derive(Eq, PartialEq, Clone, Debug)]
pub enum OwnedMessage {
    /// A message containing UTF-8 text data
    Text(String),
    /// A message containing binary data
    Binary(Vec<u8>),
    /// A message which indicates closure of the WebSocket connection.
    /// This message may or may not contain data.
    Close(Option<CloseData>),
    /// A ping message - should be responded to with a pong message.
    /// Usually the pong message will be sent with the same data as the
    /// received ping message.
    Ping(Vec<u8>),
    /// A pong message, sent in response to a Ping message, usually
    /// containing the same data as the received ping message.
    Pong(Vec<u8>),
}

impl View for OwnedMessage {
    type V = OwnedView;

    open spec fn view(&self) -> OwnedView {
        match self {
            OwnedMessage::Text(t) => OwnedView::Text(t@),
            OwnedMessage::Binary(b) => OwnedView::Binary(b@),
            OwnedMessage::Close(None) => OwnedView::Close(None),
            OwnedMessage::Close(Some(c)) => OwnedView::Close(Some((c.status_code, c.reason@))),
            OwnedMessage::Ping(b) => OwnedView::Ping(b@),
            OwnedMessage::Pong(b) => OwnedView::Pong(b@),
        }
    }
}

/// The opcode nibble an owned message is sent with.
pub open spec fn owned_opcode(m: OwnedView) -> u8 {
    match m {
        OwnedView::Text(_) => 1,
        OwnedView::Binary(_) => 2,
        OwnedView::Close(_) => 8,
        OwnedView::Ping(_) => 9,
        OwnedView::Pong(_) => 10,
    }
}

/// The payload an owned message is sent with.
pub open spec fn owned_payload(m: OwnedView) -> Seq<u8> {
    match m {
        OwnedView::Text(t) => encode_utf8(t),
        OwnedView::Binary(b) => b,
        OwnedView::Close(None) => Seq::empty(),
        OwnedView::Close(Some((code, reason))) => be16_bytes(code) + encode_utf8(reason),
        OwnedView::Ping(b) => b,
        OwnedView::Pong(b) => b,
    }
}

/// Whether an owned message is a control message.
pub open spec fn owned_is_control(m: OwnedView) -> bool {
    m is Close || m is Ping || m is Pong
}

/// The text a received payload is read as: the characters it encodes, or the
/// lossy reading of it when it is not UTF-8.
pub open spec fn text_of(data: Seq<u8>) -> Seq<char> {
    if valid_utf8(data) {
        decode_utf8(data)
    } else {
        lossy_utf8(data)
    }
}

/// The owned message that a message is turned into.
pub open spec fn owned_of(m: MessageView) -> OwnedView {
    match m.opcode {
        Type::Text => OwnedView::Text(text_of(m.payload)),
        Type::Close => match m.cd_status_code {
            Some(code) => OwnedView::Close(Some((code, text_of(m.payload)))),
            None => OwnedView::Close(None),
        },
        Type::Binary => OwnedView::Binary(m.payload),
        Type::Ping => OwnedView::Ping(m.payload),
        Type::Pong => OwnedView::Pong(m.payload),
    }
}

/// The message that an owned message is turned into.
pub open spec fn message_of_owned(m: OwnedView) -> MessageView {
    match m {
        OwnedView::Text(t) => MessageView {
            opcode: Type::Text,
            cd_status_code: None,
            payload: encode_utf8(t),
        },
        OwnedView::Binary(b) => MessageView { opcode: Type::Binary, cd_status_code: None, payload: b },
        OwnedView::Close(None) => MessageView {
            opcode: Type::Close,
            cd_status_code: None,
            payload: Seq::empty(),
        },
        OwnedView::Close(Some((code, reason))) => MessageView {
            opcode: Type::Close,
            cd_status_code: Some(code),
            payload: encode_utf8(reason),
        },
        OwnedView::Ping(b) => MessageView { opcode: Type::Ping, cd_status_code: None, payload: b },
        OwnedView::Pong(b) => MessageView { opcode: Type::Pong, cd_status_code: None, payload: b },
    }
}

impl OwnedMessage {
    /// Checks if this message is a close message.
    pub fn is_close(&self) -> (b: bool)
        ensures
            b == self@ is Close,
    {
        match self {
            OwnedMessage::Close(_) => true,
            _ => false,
        }
    }

    /// Checks if this message is a control message.
    /// Control messages are either `Close`, `Ping`, or `Pong`.
    pub fn is_control(&self) -> (b: bool)
        ensures
            b == owned_is_control(self@),
    {
        match self {
            OwnedMessage::Close(_) => true,
            OwnedMessage::Ping(_) => true,
            OwnedMessage::Pong(_) => true,
            _ => false,
        }
    }

    /// Checks if this message is a data message.
    /// Data messages are either `Text` or `Binary`.
    pub fn is_data(&self) -> (b: bool)
        ensures
            b == !owned_is_control(self@),
            b == (self@ is Text || self@ is Binary),
    {
        !self.is_control()
    }

    /// Checks if this message is a ping message.
    pub fn is_ping(&self) -> (b: bool)
        ensures
            b == self@ is Ping,
    {
        match self {
            OwnedMessage::Ping(_) => true,
            _ => false,
        }
    }

    /// Checks if this message is a pong message.
    pub fn is_pong(&self) -> (b: bool)
        ensures
            b == self@ is Pong,
    {
        match self {
            OwnedMessage::Pong(_) => true,
            _ => false,
        }
    }

    /// The owned form of a message (the text of a text or close message is
    /// read as UTF-8, lossily where it is not).
    pub fn from_message(message: Message) -> (m: OwnedMessage)
        ensures
            m@ == owned_of(message@),
    {
        match message.opcode {
            Type::Text => OwnedMessage::Text(text_of_bytes(message.payload.as_slice())),
            Type::Close => match message.cd_status_code {
                Some(code) => OwnedMessage::Close(
                    Some(CloseData { status_code: code, reason: text_of_bytes(message.payload.as_slice()) }),
                ),
                None => OwnedMessage::Close(None),
            },
            Type::Binary => OwnedMessage::Binary(message.payload),
            Type::Ping => OwnedMessage::Ping(message.payload),
            Type::Pong => OwnedMessage::Pong(message.payload),
        }
    }

    /// The message form of this owned message.
    pub fn into_message(self) -> (m: Message)
        ensures
            m@ == message_of_owned(self@),
    {
        match self {
            OwnedMessage::Text(txt) => Message::text(txt),
            OwnedMessage::Binary(bin) => Message::binary(bin),
            OwnedMessage::Close(because) => match because {
                Some(c) => Message::close_because(c.status_code, c.reason),
                None => Message::close(),
            },
            OwnedMessage::Ping(data) => Message::ping(data),
            OwnedMessage::Pong(data) => Message::pong(data),
        }
    }
}

impl DataFrameTrait for OwnedMessage {
    open spec fn last_view(&self) -> bool {
        true
    }

    open spec fn opcode_view(&self) -> u8 {
        owned_opcode(self@)
    }

    open spec fn reserved_view(&self) -> Seq<bool> {
        seq![false, false, false]
    }

    open spec fn payload_view(&self) -> Seq<u8> {
        owned_payload(self@)
    }

    fn is_last(&self) -> (b: bool) {
        true
    }

    fn opcode(&self) -> (o: u8) {
        match self {
            OwnedMessage::Text(_) => 1,
            OwnedMessage::Binary(_) => 2,
            OwnedMessage::Close(_) => 8,
            OwnedMessage::Ping(_) => 9,
            OwnedMessage::Pong(_) => 10,
        }
    }

    fn reserved(&self) -> (r: [bool; 3]) {
        let r = [false, false, false];
        assert(r@ =~= seq![false, false, false]);
        r
    }

    fn size(&self) -> (n: usize) {
        match self {
            OwnedMessage::Text(txt) => txt.as_str().len(),
            OwnedMessage::Binary(bin) => bin.len(),
            OwnedMessage::Ping(data) => data.len(),
            OwnedMessage::Pong(data) => data.len(),
            OwnedMessage::Close(data) => match data {
                Some(c) => c.reason.as_str().len() + 2,
                None => 0,
            },
        }
    }

    fn write_payload(&self, out: &mut Vec<u8>) {
        let ghost start = out@;
        match self {
            OwnedMessage::Text(txt) => extend_bytes(out, txt.as_str().as_bytes()),
            OwnedMessage::Binary(bin) => extend_bytes(out, bin.as_slice()),
            OwnedMessage::Ping(data) => extend_bytes(out, data.as_slice()),
            OwnedMessage::Pong(data) => extend_bytes(out, data.as_slice()),
            OwnedMessage::Close(data) => match data {
                Some(c) => {
                    let b = write_be_u16(c.status_code);
                    out.push(b[0]);
                    out.push(b[1]);
                    assert(out@ =~= start + be16_bytes(c.status_code));
                    extend_bytes(out, c.reason.as_str().as_bytes());
                    assert(out@ =~= start + (be16_bytes(c.status_code) + encode_utf8(c.reason@)));
                },
                None => {
                    assert(out@ =~= start + Seq::<u8>::empty());
                },
            },
        }
    }

    fn take_payload(self) -> (v: Vec<u8>) {
        let mut buf: Vec<u8> = Vec::new();
        self.write_payload(&mut buf);
        assert(buf@ =~= self.payload_view());
        buf
    }
}

impl MessageTrait for OwnedMessage {
    open spec fn formed_from(frames: Seq<FrameView>, r: Result<Self, WebSocketError>) -> bool {
        match message_from_frames(frames) {
            Ok(mv) => r matches Ok(m) && m@ == owned_of(mv),
            Err(e) => r == Err::<Self, WebSocketError>(e),
        }
    }

    /// Attempt to form a message from a series of data frames
    fn from_dataframes<D: DataFrameTrait>(frames: Vec<D>) -> (r: WebSocketResult<Self>) {
        let m = message_from_dataframes(frames)?;
        Ok(OwnedMessage::from_message(m))
    }
}

/// The single frame an owned message is sent as.
pub open spec fn owned_frame(m: OwnedView) -> FrameView {
    FrameView {
        finished: true,
        reserved: seq![false, false, false],
        opcode: owned_opcode(m),
        data: owned_payload(m),
    }
}

/// Forming a message from the frame an owned message is sent as gives back
/// that very message.
pub proof fn lemma_owned_message_roundtrip(m: OwnedView)
    ensures
        message_from_frames(seq![owned_frame(m)]) matches Ok(mv) && owned_of(mv) == m,
{
    broadcast use vstd::utf8::encode_utf8_valid_utf8, vstd::utf8::encode_utf8_decode_utf8;

    let fs = seq![owned_frame(m)];
    assert(frame_error(fs, 0) is None);
    assert(first_frame_error(fs, 1) is None);
    assert(joined_payload(fs, 1) =~= owned_payload(m)) by {
        assert(joined_payload(fs, 0) =~= Seq::<u8>::empty());
    }
    match m {
        OwnedView::Close(Some((code, reason))) => {
            let data = owned_payload(m);
            crate::ws::util::byte_order::lemma_be16_roundtrip(code, encode_utf8(reason));
            assert(data.subrange(2, data.len() as int) =~= encode_utf8(reason));
        },
        _ => {},
    }
}

/// Represents a WebSocket message, as formed from a whole frame's opcode
/// and payload.
#[derive(PartialEq, Eq, Clone, Debug)]
pub enum WebSocketMessage {
    /// A message containing UTF-8 text data
    Text(String),
    /// A message containing binary data
    Binary(Vec<u8>),
    /// A message which indicates closure of the WebSocket connection.
    /// This message may or may not contain data.
    Close(Option<CloseData>),
    /// A ping message - should be responded to with a pong message.
    /// Usually the pong message will be sent with the same data as the
    /// received ping message.
    Ping(Vec<u8>),
    /// A pong message, sent in response to a Ping message, usually
    /// containing the same data as the received ping message.
    Pong(Vec<u8>),
}

impl View for WebSocketMessage {
    type V = OwnedView;

    open spec fn view(&self) -> OwnedView {
        match self {
            WebSocketMessage::Text(t) => OwnedView::Text(t@),
            WebSocketMessage::Binary(b) => OwnedView::Binary(b@),
            WebSocketMessage::Close(None) => OwnedView::Close(None),
            WebSocketMessage::Close(Some(c)) => OwnedView::Close(Some((c.status_code, c.reason@))),
            WebSocketMessage::Ping(b) => OwnedView::Ping(b@),
            WebSocketMessage::Pong(b) => OwnedView::Pong(b@),
        }
    }
}

/// The message an opcode and payload form, or the error with which they are
/// refused: text must be UTF-8, and a close payload is a status code followed
/// by a UTF-8 reason.
pub open spec fn message_from_data(opcode: u8, data: Seq<u8>) -> Result<OwnedView, WebSocketError> {
    if opcode == 1 {
        if valid_utf8(data) {
            Ok(OwnedView::Text(decode_utf8(data)))
        } else {
            Err(WebSocketError::Utf8Error)
        }
    } else if opcode == 2 {
        Ok(OwnedView::Binary(data))
    } else if opcode == 8 {
        if data.len() > 0 {
            let reason = data.subrange(2, data.len() as int);
            if valid_utf8(reason) {
                Ok(OwnedView::Close(Some((be16_value(data), decode_utf8(reason)))))
            } else {
                Err(WebSocketError::Utf8Error)
            }
        } else {
            Ok(OwnedView::Close(None))
        }
    } else if opcode == 9 {
        Ok(OwnedView::Ping(data))
    } else if opcode == 10 {
        Ok(OwnedView::Pong(data))
    } else {
        Err(WebSocketError::ProtocolError(ProtocolErrorKind::UnsupportedOpcode))
    }
}

impl WebSocketMessage {
    /// Create a new WebSocketMessage from the given opcode and data. A close
    /// payload cannot be a single byte.
    pub fn from_data(opcode: WebSocketOpcode, data: Vec<u8>) -> (r: WebSocketResult<WebSocketMessage>)
        requires
            !(opcode == WebSocketOpcode::Close && data@.len() == 1),
        ensures
            match message_from_data(ws_opcode_value(opcode), data@) {
                Ok(m) => r matches Ok(msg) && msg@ == m,
                Err(e) => r == Err::<WebSocketMessage, WebSocketError>(e),
            },
    {
        match opcode {
            WebSocketOpcode::Text => match bytes_to_string(data.as_slice()) {
                Ok(s) => Ok(WebSocketMessage::Text(s)),
                Err(_) => Err(WebSocketError::Utf8Error),
            },
            WebSocketOpcode::Binary => Ok(WebSocketMessage::Binary(data)),
            WebSocketOpcode::Close => {
                if data.len() > 0 {
                    let status_code = ((data[0] as u16) << 8) | data[1] as u16;
                    let reason = match bytes_to_string(slice_subrange(data.as_slice(), 2, data.len())) {
                        Ok(s) => s,
                        Err(_) => {
                            return Err(WebSocketError::Utf8Error);
                        },
                    };
                    Ok(WebSocketMessage::Close(Some(CloseData::new(status_code, reason))))
                } else {
                    Ok(WebSocketMessage::Close(None))
                }
            },
            WebSocketOpcode::Ping => Ok(WebSocketMessage::Ping(data)),
            WebSocketOpcode::Pong => Ok(WebSocketMessage::Pong(data)),
            _ => Err(WebSocketError::ProtocolError(ProtocolErrorKind::UnsupportedOpcode)),
        }
    }

    /// Convert this message into a whole, unmasked wire data frame.
    pub fn into_dataframe(self) -> (r: WebSocketResult<WebSocketDataFrame>)
        ensures
            r matches Ok(df) && df@ == (WireFrameView {
                finished: true,
                reserved: seq![false, false, false],
                opcode: owned_opcode(self@),
                mask: None,
                length: wire_length(owned_payload(self@).len()),
                data: owned_payload(self@),
            }),
    {
        let (opcode, data) = match self {
            WebSocketMessage::Text(payload) => (
                WebSocketOpcode::Text,
                copy_bytes(payload.as_str().as_bytes()),
            ),
            WebSocketMessage::Binary(payload) => (WebSocketOpcode::Binary, payload),
            WebSocketMessage::Close(payload) => (
                WebSocketOpcode::Close,
                match payload {
                    Some(payload) => payload.into_bytes()?,
                    None => Vec::new(),
                },
            ),
            WebSocketMessage::Ping(payload) => (WebSocketOpcode::Ping, payload),
            WebSocketMessage::Pong(payload) => (WebSocketOpcode::Pong, payload),
        };
        Ok(WebSocketDataFrame::new(true, opcode, data))
    }
}

/// Forming a message from the opcode and payload a message is turned into
/// gives back that very message.
pub proof fn lemma_message_data_roundtrip(m: OwnedView)
    ensures
        message_from_data(owned_opcode(m), owned_payload(m)) == Ok::<OwnedView, WebSocketError>(m),
{
    broadcast use vstd::utf8::encode_utf8_valid_utf8, vstd::utf8::encode_utf8_decode_utf8;

    match m {
        OwnedView::Close(Some((code, reason))) => {
            let data = owned_payload(m);
            crate::ws::util::byte_order::lemma_be16_roundtrip(code, encode_utf8(reason));
            assert(data.subrange(2, data.len() as int) =~= encode_utf8(reason));
        },
        _ => {},
    }
}

/// A message of the default type can always be written, but for a control
/// message whose payload is 126 bytes or more: its opcode fits a nibble.
pub proof fn lemma_message_writable(m: Message)
    ensures
        frame_writable(
            DataFrameTrait::opcode_view(&m),
            DataFrameTrait::payload_view(&m).len(),
        ) <==> !(DataFrameTrait::opcode_view(&m) >= 8 && DataFrameTrait::payload_view(&m).len()
            >= 126),
{
}

/// An owned message can always be written, but for a control message whose
/// payload is 126 bytes or more: its opcode fits a nibble.
pub proof fn lemma_owned_message_writable(m: OwnedMessage)
    ensures
        frame_writable(
            DataFrameTrait::opcode_view(&m),
            DataFrameTrait::payload_view(&m).len(),
        ) <==> !(DataFrameTrait::opcode_view(&m) >= 8 && DataFrameTrait::payload_view(&m).len()
            >= 126),
{
}

/// The message types are sent with the opcodes RFC 6455 gives them: text 1,
/// binary 2, close 8, ping 9 and pong 10, the opcodes of the frames of the
/// same name.
pub proof fn lemma_type_opcodes()
    ensures
        type_value(Type::Text) == 1 && type_value(Type::Binary) == 2 && type_value(Type::Close) == 8
            && type_value(Type::Ping) == 9 && type_value(Type::Pong) == 10,
        type_value(Type::Text) == opcode_value(Opcode::Text),
        type_value(Type::Binary) == opcode_value(Opcode::Binary),
        type_value(Type::Close) == opcode_value(Opcode::Close),
        type_value(Type::Ping) == opcode_value(Opcode::Ping),
        type_value(Type::Pong) == opcode_value(Opcode::Pong),
{
}

/// A message of any type is formed back from its opcode and payload: the
/// opcode a message type is sent with is read as that same type (a text
/// payload must be UTF-8; a close message here carries no status code).
pub proof fn lemma_type_roundtrip(t: Type, data: Seq<u8>)
    requires
        t == Type::Text ==> valid_utf8(data),
        t == Type::Close ==> data.len() == 0,
    ensures
        message_of_payload(type_value(t), data) == Ok::<MessageView, WebSocketError>(
            MessageView { opcode: t, cd_status_code: None, payload: data },
        ),
{
}

/// Adding a frame at the end leaves the payloads of the frames before it
/// joined as they were.
proof fn lemma_joined_prefix(fs: Seq<FrameView>, c: FrameView, k: nat)
    requires
        k <= fs.len(),
    ensures
        joined_payload(fs.push(c), k) == joined_payload(fs, k),
    decreases k,
{
    if k > 0 {
        lemma_joined_prefix(fs, c, (k - 1) as nat);
        assert(fs.push(c)[k - 1] == fs[k - 1]);
    }
}

/// Changing the first frame but not its payload leaves the joined payloads.
proof fn lemma_joined_first(fs: Seq<FrameView>, f: FrameView, k: nat)
    requires
        k <= fs.len(),
        fs.len() > 0,
        f.data == fs[0].data,
    ensures
        joined_payload(fs.update(0, f), k) == joined_payload(fs, k),
    decreases k,
{
    if k > 0 {
        lemma_joined_first(fs, f, (k - 1) as nat);
        assert(fs.update(0, f)[k - 1].data == fs[k - 1].data);
    }
}

/// Where no frame from `i` on is refused, none of them is.
proof fn lemma_no_frame_error(fs: Seq<FrameView>, i: nat, j: int)
    requires
        first_frame_error(fs, i) is None,
        i <= j < fs.len(),
    ensures
        frame_error(fs, j) is None,
    decreases j - i,
{
    if i < j {
        lemma_no_frame_error(fs, i + 1, j);
    }
}

/// A binary message formed from the frames of one message carries every
/// frame's payload, in order: a single binary frame forms a message of its
/// payload, and one more continuation frame (without reserved bits) after
/// accepted frames appends its payload to the message's.
pub proof fn lemma_binary_fragments_append(fs: Seq<FrameView>, c: FrameView)
    requires
        fs.len() >= 1,
        fs[0].opcode == 2,
        message_from_frames(fs) is Ok,
        c.opcode == 0,
        c.reserved == seq![false, false, false],
    ensures
        message_from_frames(fs.push(c)) == Ok::<MessageView, WebSocketError>(
            MessageView {
                opcode: Type::Binary,
                cd_status_code: None,
                payload: message_from_frames(fs).unwrap().payload + c.data,
            },
        ),
        fs.len() == 1 ==> message_from_frames(fs) == Ok::<MessageView, WebSocketError>(
            MessageView { opcode: Type::Binary, cd_status_code: None, payload: fs[0].data },
        ),
{
    let t = fs.push(c);
    let n = fs.len();
    assert(first_frame_error(fs, 0) is None);
    assert forall|j: int| 0 <= j < t.len() implies frame_error(t, j) is None by {
        if j < n {
            lemma_no_frame_error(fs, 0, j);
            assert(t[j] == fs[j]);
        } else {
            assert(t[j] == c);
        }
    }
    lemma_first_error_skip(t, t.len());
    lemma_joined_prefix(fs, c, n);
    assert(t[n as int] == c);
    assert(joined_payload(t, n + 1) == joined_payload(t, n) + c.data);
    if n == 1 {
        assert(joined_payload(fs, 0) == Seq::<u8>::empty());
        assert(joined_payload(fs, 1) =~= fs[0].data);
    }
}

/// A text message formed from frames carries the same payload as the binary
/// message formed from the same frames, when that payload is UTF-8.
pub proof fn lemma_text_fragments_as_binary(fs: Seq<FrameView>, f: FrameView)
    requires
        fs.len() >= 1,
        fs[0].opcode == 2,
        f == (FrameView { opcode: 1, ..fs[0] }),
        message_from_frames(fs) is Ok,
        valid_utf8(message_from_frames(fs).unwrap().payload),
    ensures
        message_from_frames(fs.update(0, f)) == Ok::<MessageView, WebSocketError>(
            MessageView {
                opcode: Type::Text,
                cd_status_code: None,
                payload: message_from_frames(fs).unwrap().payload,
            },
        ),
{
    let t = fs.update(0, f);
    assert(first_frame_error(fs, 0) is None);
    assert forall|j: int| 0 <= j < t.len() implies frame_error(t, j) is None by {
        lemma_no_frame_error(fs, 0, j);
    }
    lemma_first_error_skip(t, t.len());
    lemma_joined_first(fs, f, fs.len());
}

} // verus!
