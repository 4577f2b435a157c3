//! Receiving messages, whole or reassembled from fragments, from wire data frames.

use crate::result::{ProtocolErrorKind, WebSocketError, WebSocketResult};
use crate::ws::message::dataframe::{
    lemma_wire_frame_roundtrip, parse_wire_frame, wire_frame_bytes, wire_frame_wf, ws_opcode_value,
    ReadWebSocketDataFrame, WebSocketDataFrame, WebSocketOpcode, WireFrameView,
};
use crate::ws::message::send::{fragmentable, message_frame, payload_frame};
use crate::ws::message::{ws_message_opcode, ws_message_payload};
use crate::ws::message::{WebSocketMessage, WsMessageView};
use crate::ws::util::buffer::extend_bytes;
use crate::ws::util::mask::{lemma_mask_involution, mask_data, masked};
use crate::ws::util::str_from_utf8;
use vstd::prelude::*;
use vstd::utf8::{decode_utf8, valid_utf8};

verus! {

/// The payload a wire frame carries: its data, unmasked when it has a key.
pub open spec fn unmasked_payload(f: WireFrameView) -> Seq<u8> {
    match f.mask {
        Some(k) => masked(k, f.data),
        None => f.data,
    }
}

/// The message formed from the opcode and joined payload of a finished
/// fragmented message.
pub open spec fn created_message(opcode: Option<u8>, data: Seq<u8>) -> Result<WsMessageView, WebSocketError> {
    match opcode {
        Some(1u8) => if valid_utf8(data) {
            Ok(WsMessageView::Text(decode_utf8(data)))
        } else {
            Err(WebSocketError::Utf8Error)
        },
        Some(2u8) => Ok(WsMessageView::Binary(data)),
        _ => Err(WebSocketError::ProtocolError(ProtocolErrorKind::MissingOpcode)),
    }
}

/// What receiving a message from the bytes `s` gives, when a fragmented
/// message with opcode `opcode` and payload `data` so far has begun: the
/// outcome, the opcode and payload left over, and the bytes left unread.
///
/// Text and binary frames begin a message, continuation frames add to it, and
/// the last frame forms it; a control frame is handed out at once, even in the
/// middle of a fragmented message.
pub open spec fn wire_receive(opcode: Option<u8>, data: Seq<u8>, s: Seq<u8>) -> (
    Result<WsMessageView, WebSocketError>,
    Option<u8>,
    Seq<u8>,
    Seq<u8>,
)
    decreases s.len(),
{
    match parse_wire_frame(s) {
        Err(e) => (Err(e), opcode, data, s),
        Ok((f, n)) => {
            let rest = s.skip(n);
            let payload = unmasked_payload(f);
            if f.opcode == 0 && opcode is None {
                (
                    Err(WebSocketError::ProtocolError(ProtocolErrorKind::UnexpectedContinuation)),
                    opcode,
                    data,
                    rest,
                )
            } else if (f.opcode == 1 || f.opcode == 2) && opcode is Some {
                (
                    Err(WebSocketError::ProtocolError(ProtocolErrorKind::UnexpectedNonContinuation)),
                    opcode,
                    data,
                    rest,
                )
            } else if f.opcode <= 2 {
                let op2 = if f.opcode == 0 {
                    opcode
                } else {
                    Some(f.opcode)
                };
                let data2 = data + payload;
                if f.finished {
                    (created_message(op2, data2), None, Seq::empty(), rest)
                } else if 0 < n <= s.len() {
                    wire_receive(op2, data2, rest)
                } else {
                    (Err(WebSocketError::NoDataAvailable), op2, data2, rest)
                }
            } else if f.opcode == 8 {
                (Ok(WsMessageView::Close(payload)), opcode, data, rest)
            } else if f.opcode == 9 {
                (Ok(WsMessageView::Ping(payload)), opcode, data, rest)
            } else if f.opcode == 10 {
                (Ok(WsMessageView::Pong(payload)), opcode, data, rest)
            } else {
                (
                    Err(WebSocketError::ProtocolError(ProtocolErrorKind::UnsupportedOpcode)),
                    opcode,
                    data,
                    rest,
                )
            }
        },
    }
}

/// Represents a WebSocket receiver which can receive messages from the bytes
/// received so far, reassembling fragmented messages.
pub struct WebSocketReceiver {
    opcode: Option<WebSocketOpcode>,
    data: Vec<u8>,
}

/// Create a receiver, with no message begun.
pub fn new_receiver() -> (r: WebSocketReceiver)
    ensures
        r.pending_opcode() is None,
        r.pending_data() == Seq::<u8>::empty(),
{
    WebSocketReceiver { opcode: None, data: Vec::new() }
}

impl WebSocketReceiver {
    /// The opcode of the fragmented message begun, if any.
    pub closed spec fn pending_opcode(&self) -> Option<u8> {
        match self.opcode {
            Some(o) => Some(ws_opcode_value(o)),
            None => None,
        }
    }

    /// The payload of the fragmented message received so far.
    pub closed spec fn pending_data(&self) -> Seq<u8> {
        self.data@
    }

    /// Accepts a message from the start of `input`, consuming the bytes of
    /// its frames. If the received message is fragmented, this function will
    /// not return until the final fragment has been received. If a control
    /// frame is received interleaved within a fragmented message, the control
    /// frame will be returned first, and the message will be returned on a
    /// later call.
    pub fn receive_message(&mut self, input: &mut Vec<u8>) -> (r: WebSocketResult<WebSocketMessage>)
        ensures
            ({
                let (res, op, data, rest) = wire_receive(
                    old(self).pending_opcode(),
                    old(self).pending_data(),
                    old(input)@,
                );
                &&& final(input)@ == rest
                &&& final(self).pending_opcode() == op
                &&& final(self).pending_data() == data
                &&& match r {
                    Ok(m) => res == Ok::<WsMessageView, WebSocketError>(m@),
                    Err(e) => res == Err::<WsMessageView, WebSocketError>(e),
                }
            }),
        decreases old(input)@.len(),
    {
        let ghost s0 = input@;
        let dataframe = input.read_websocket_dataframe()?;
        let data = match dataframe.mask {
            Some(key) => mask_data(key, dataframe.data.as_slice()),
            None => dataframe.data,
        };
        match dataframe.opcode {
            WebSocketOpcode::Continuation => {
                if self.opcode.is_none() {
                    return Err(WebSocketError::ProtocolError(ProtocolErrorKind::UnexpectedContinuation));
                }
            },
            WebSocketOpcode::Text | WebSocketOpcode::Binary => {
                if self.opcode.is_none() {
                    self.opcode = Some(dataframe.opcode);
                } else {
                    return Err(WebSocketError::ProtocolError(ProtocolErrorKind::UnexpectedNonContinuation));
                }
            },
            WebSocketOpcode::Close => {
                return Ok(WebSocketMessage::Close(data));
            },
            WebSocketOpcode::Ping => {
                return Ok(WebSocketMessage::Ping(data));
            },
            WebSocketOpcode::Pong => {
                return Ok(WebSocketMessage::Pong(data));
            },
            _ => {
                return Err(WebSocketError::ProtocolError(ProtocolErrorKind::UnsupportedOpcode));
            },
        }
        extend_bytes(&mut self.data, data.as_slice());
        if dataframe.finished {
            self.create_message()
        } else {
            proof {
                assert(s0.len() >= 2);
            }
            self.receive_message(input)
        }
    }

    /// Forms the message received so far, leaving no message begun.
    fn create_message(&mut self) -> (r: WebSocketResult<WebSocketMessage>)
        ensures
            final(self).pending_opcode() is None,
            final(self).pending_data() == Seq::<u8>::empty(),
            match created_message(old(self).pending_opcode(), old(self).pending_data()) {
                Ok(m) => r matches Ok(msg) && msg@ == m,
                Err(e) => r == Err::<WebSocketMessage, WebSocketError>(e),
            },
    {
        let mut data: Vec<u8> = Vec::new();
        std::mem::swap(&mut data, &mut self.data);
        let opcode = self.opcode;
        self.opcode = None;
        match opcode {
            Some(WebSocketOpcode::Text) => match str_from_utf8(data.as_slice()) {
                Ok(s) => Ok(WebSocketMessage::Text(s.to_owned())),
                Err(_) => Err(WebSocketError::Utf8Error),
            },
            Some(WebSocketOpcode::Binary) => Ok(WebSocketMessage::Binary(data)),
            _ => Err(WebSocketError::ProtocolError(ProtocolErrorKind::MissingOpcode)),
        }
    }

    /// Returns an iterator over the incoming messages.
    pub fn incoming(self) -> (i: IncomingMessages)
        ensures
            i.receiver() == self,
    {
        IncomingMessages { inc: self }
    }
}

/// An iterator over incoming messages: every call gives the next message (or error).
pub struct IncomingMessages {
    inc: WebSocketReceiver,
}

impl IncomingMessages {
    /// The receiver the messages come from.
    pub closed spec fn receiver(&self) -> WebSocketReceiver {
        self.inc
    }

    /// Receives the next message from `input`; there always is one to try.
    pub fn next(&mut self, input: &mut Vec<u8>) -> (r: Option<WebSocketResult<WebSocketMessage>>)
        ensures
            ({
                let (res, op, data, rest) = wire_receive(
                    old(self).receiver().pending_opcode(),
                    old(self).receiver().pending_data(),
                    old(input)@,
                );
                &&& final(input)@ == rest
                &&& final(self).receiver().pending_opcode() == op
                &&& final(self).receiver().pending_data() == data
                &&& match r {
                    Some(Ok(m)) => res == Ok::<WsMessageView, WebSocketError>(m@),
                    Some(Err(e)) => res == Err::<WsMessageView, WebSocketError>(e),
                    None => false,
                }
            }),
    {
        Some(self.inc.receive_message(input))
    }
}

/// The wire frame of fragment `i` of a message sent in fragments: the first
/// carries the message's opcode, the others are continuation frames, and the
/// last one is finished.
pub open spec fn fragment_frame(
    opcode: u8,
    payloads: Seq<Seq<u8>>,
    keys: Seq<Option<Seq<u8>>>,
    i: int,
) -> WireFrameView {
    payload_frame(
        if i == 0 {
            opcode
        } else {
            0u8
        },
        payloads[i],
        keys[i],
        i == payloads.len() - 1,
    )
}

/// The bytes of the fragments `i..` of a message sent in fragments.
pub open spec fn fragments_bytes(
    opcode: u8,
    payloads: Seq<Seq<u8>>,
    keys: Seq<Option<Seq<u8>>>,
    i: nat,
) -> Seq<u8>
    decreases payloads.len() - i,
{
    if i >= payloads.len() {
        Seq::empty()
    } else {
        wire_frame_bytes(fragment_frame(opcode, payloads, keys, i as int)) + fragments_bytes(
            opcode,
            payloads,
            keys,
            i + 1,
        )
    }
}

/// The payloads `i..` joined.
pub open spec fn joined_payloads(payloads: Seq<Seq<u8>>, i: nat) -> Seq<u8>
    decreases payloads.len() - i,
{
    if i >= payloads.len() {
        Seq::empty()
    } else {
        payloads[i as int] + joined_payloads(payloads, i + 1)
    }
}

/// Fragments that can be sent: as many keys as payloads, each of four bytes
/// when given, and payloads whose length fits the length field.
pub open spec fn fragments_wf(payloads: Seq<Seq<u8>>, keys: Seq<Option<Seq<u8>>>) -> bool {
    &&& keys.len() == payloads.len()
    &&& forall|i: int| 0 <= i < keys.len() ==> (#[trigger] keys[i] matches Some(k) ==> k.len() == 4)
    &&& forall|i: int| 0 <= i < payloads.len() ==> #[trigger] payloads[i].len() <= u64::MAX
}

/// The frame of each fragment is read back as written, and carries its payload.
proof fn lemma_fragment_frame(
    opcode: u8,
    payloads: Seq<Seq<u8>>,
    keys: Seq<Option<Seq<u8>>>,
    i: int,
    rest: Seq<u8>,
)
    requires
        opcode <= 15,
        fragments_wf(payloads, keys),
        0 <= i < payloads.len(),
    ensures
        ({
            let f = fragment_frame(opcode, payloads, keys, i);
            &&& parse_wire_frame(wire_frame_bytes(f) + rest) == Ok::<
                (WireFrameView, int),
                WebSocketError,
            >((f, wire_frame_bytes(f).len() as int))
            &&& (wire_frame_bytes(f) + rest).skip(wire_frame_bytes(f).len() as int) == rest
            &&& wire_frame_bytes(f).len() >= 2
            &&& unmasked_payload(f) == payloads[i]
        }),
{
    let f = fragment_frame(opcode, payloads, keys, i);
    assert(keys[i] matches Some(k) ==> k.len() == 4);
    assert(payloads[i].len() <= u64::MAX);
    assert(f.reserved =~= seq![false, false, false]);
    assert(wire_frame_wf(f));
    lemma_wire_frame_roundtrip(f, rest);
    assert((wire_frame_bytes(f) + rest).skip(wire_frame_bytes(f).len() as int) =~= rest);
    if let Some(k) = keys[i] {
        lemma_mask_involution(k, payloads[i]);
    }
}

/// Receiving the continuation fragments `i..` of a begun message adds their
/// payloads to it and forms the message at the last one.
proof fn lemma_receive_fragments_from(
    opcode: u8,
    payloads: Seq<Seq<u8>>,
    keys: Seq<Option<Seq<u8>>>,
    acc: Seq<u8>,
    i: nat,
    rest: Seq<u8>,
)
    requires
        opcode == 1 || opcode == 2,
        fragments_wf(payloads, keys),
        1 <= i < payloads.len(),
    ensures
        wire_receive(Some(opcode), acc, fragments_bytes(opcode, payloads, keys, i) + rest) == (
            created_message(Some(opcode), acc + joined_payloads(payloads, i)),
            None::<u8>,
            Seq::<u8>::empty(),
            rest,
        ),
    decreases payloads.len() - i,
{
    let f = fragment_frame(opcode, payloads, keys, i as int);
    let tail = fragments_bytes(opcode, payloads, keys, i + 1) + rest;
    lemma_fragment_frame(opcode, payloads, keys, i as int, tail);
    assert(fragments_bytes(opcode, payloads, keys, i) + rest =~= wire_frame_bytes(f) + tail);
    if i + 1 < payloads.len() {
        lemma_receive_fragments_from(opcode, payloads, keys, acc + payloads[i as int], i + 1, rest);
        assert(acc + payloads[i as int] + joined_payloads(payloads, i + 1) =~= acc
            + joined_payloads(payloads, i));
    } else {
        assert(fragments_bytes(opcode, payloads, keys, i + 1) =~= Seq::<u8>::empty());
        assert(tail =~= rest);
        assert(joined_payloads(payloads, i + 1) =~= Seq::<u8>::empty());
        assert(acc + payloads[i as int] =~= acc + joined_payloads(payloads, i));
    }
}

/// A text or binary message sent in fragments (with any masking keys) is
/// received, by a receiver with no message begun, as one message of the first
/// fragment's type holding all of the fragment data concatenated together,
/// consuming exactly the bytes of the fragments.
pub proof fn lemma_fragments_reassemble(
    opcode: u8,
    payloads: Seq<Seq<u8>>,
    keys: Seq<Option<Seq<u8>>>,
    rest: Seq<u8>,
)
    requires
        opcode == 1 || opcode == 2,
        payloads.len() >= 1,
        fragments_wf(payloads, keys),
    ensures
        wire_receive(None, Seq::empty(), fragments_bytes(opcode, payloads, keys, 0) + rest) == (
            created_message(Some(opcode), joined_payloads(payloads, 0)),
            None::<u8>,
            Seq::<u8>::empty(),
            rest,
        ),
{
    let f = fragment_frame(opcode, payloads, keys, 0);
    let tail = fragments_bytes(opcode, payloads, keys, 1) + rest;
    lemma_fragment_frame(opcode, payloads, keys, 0, tail);
    assert(fragments_bytes(opcode, payloads, keys, 0) + rest =~= wire_frame_bytes(f) + tail);
    assert(Seq::<u8>::empty() + payloads[0] =~= payloads[0]);
    if payloads.len() > 1 {
        lemma_receive_fragments_from(opcode, payloads, keys, payloads[0], 1, rest);
        assert(payloads[0] + joined_payloads(payloads, 1) =~= joined_payloads(payloads, 0));
    } else {
        assert(fragments_bytes(opcode, payloads, keys, 1) =~= Seq::<u8>::empty());
        assert(tail =~= rest);
        assert(joined_payloads(payloads, 1) =~= Seq::<u8>::empty());
        assert(payloads[0] =~= joined_payloads(payloads, 0));
    }
}

/// A message sent whole (with any masking key) is received as that very
/// message by a receiver with no message begun, consuming exactly its bytes.
pub proof fn lemma_wire_message_roundtrip(m: WsMessageView, key: Option<Seq<u8>>, rest: Seq<u8>)
    requires
        key matches Some(k) ==> k.len() == 4,
        ws_message_payload(m).len() <= u64::MAX,
    ensures
        wire_receive(None, Seq::empty(), wire_frame_bytes(message_frame(m, key, true)) + rest) == (
            Ok::<WsMessageView, WebSocketError>(m),
            None::<u8>,
            Seq::<u8>::empty(),
            rest,
        ),
{
    broadcast use vstd::utf8::encode_utf8_valid_utf8, vstd::utf8::encode_utf8_decode_utf8;

    let payloads = seq![ws_message_payload(m)];
    let keys = seq![key];
    assert(fragments_wf(payloads, keys));
    let op = ws_message_opcode(m);
    lemma_fragment_frame(op, payloads, keys, 0, rest);
    assert(fragment_frame(op, payloads, keys, 0) == message_frame(m, key, true));
    assert(Seq::<u8>::empty() + payloads[0] =~= payloads[0]);
}

/// A control message that arrives in the middle of a fragmented message is
/// handed out at once, and the fragmented message begun so far is kept for
/// later calls: its opcode and payload stay as they were.
pub proof fn lemma_control_interleaved(
    opcode: Option<u8>,
    data: Seq<u8>,
    m: WsMessageView,
    key: Option<Seq<u8>>,
    rest: Seq<u8>,
)
    requires
        m is Close || m is Ping || m is Pong,
        key matches Some(k) ==> k.len() == 4,
        ws_message_payload(m).len() <= u64::MAX,
    ensures
        wire_receive(opcode, data, wire_frame_bytes(message_frame(m, key, true)) + rest) == (
            Ok::<WsMessageView, WebSocketError>(m),
            opcode,
            data,
            rest,
        ),
{
    let payloads = seq![ws_message_payload(m)];
    let keys = seq![key];
    assert(fragments_wf(payloads, keys));
    let op = ws_message_opcode(m);
    lemma_fragment_frame(op, payloads, keys, 0, rest);
    assert(fragment_frame(op, payloads, keys, 0) == message_frame(m, key, true));
}

/// The bytes a fragment serializer that has not begun writes for the
/// messages `ms` from index `i` on: `send_fragment` for each but the last
/// and `finish` for the last, with the masking keys `keys`. The first frame
/// carries its message's opcode, the later ones are continuation frames.
pub open spec fn fragmented_bytes(ms: Seq<WsMessageView>, keys: Seq<Option<Seq<u8>>>, i: nat) -> Seq<u8>
    decreases ms.len() - i,
{
    if i >= ms.len() {
        Seq::empty()
    } else {
        wire_frame_bytes(
            payload_frame(
                if i > 0 {
                    0u8
                } else {
                    ws_message_opcode(ms[i as int])
                },
                ws_message_payload(ms[i as int]),
                keys[i as int],
                i == ms.len() - 1,
            ),
        ) + fragmented_bytes(ms, keys, i + 1)
    }
}

/// The bytes written for the messages from index `i` on are those of the
/// fragments of their payloads.
proof fn lemma_fragmented_bytes(ms: Seq<WsMessageView>, keys: Seq<Option<Seq<u8>>>, i: nat)
    requires
        ms.len() >= 1,
    ensures
        fragmented_bytes(ms, keys, i) == fragments_bytes(
            ws_message_opcode(ms[0]),
            ms.map_values(|m: WsMessageView| ws_message_payload(m)),
            keys,
            i,
        ),
    decreases ms.len() - i,
{
    if i < ms.len() {
        lemma_fragmented_bytes(ms, keys, i + 1);
    }
}

/// A message sent in fragments by a fragment serializer that has not begun
/// (`send_fragment` for each text or binary message but the last, `finish`
/// for the last, with any masking keys) is received, by a receiver with no
/// message begun, as one message of the first message's type holding all of
/// their payloads concatenated, consuming exactly the bytes written.
pub proof fn lemma_fragmented_send(ms: Seq<WsMessageView>, keys: Seq<Option<Seq<u8>>>, rest: Seq<u8>)
    requires
        ms.len() >= 1,
        keys.len() == ms.len(),
        forall|i: int| 0 <= i < ms.len() ==> fragmentable(#[trigger] ms[i]),
        forall|i: int| 0 <= i < keys.len() ==> (#[trigger] keys[i] matches Some(k) ==> k.len() == 4),
        forall|i: int| 0 <= i < ms.len() ==> #[trigger] ws_message_payload(ms[i]).len() <= u64::MAX,
    ensures
        wire_receive(None, Seq::empty(), fragmented_bytes(ms, keys, 0) + rest) == (
            created_message(
                Some(ws_message_opcode(ms[0])),
                joined_payloads(ms.map_values(|m: WsMessageView| ws_message_payload(m)), 0),
            ),
            None::<u8>,
            Seq::<u8>::empty(),
            rest,
        ),
{
    let payloads = ms.map_values(|m: WsMessageView| ws_message_payload(m));
    lemma_fragmented_bytes(ms, keys, 0);
    assert(fragments_wf(payloads, keys)) by {
        assert forall|i: int| 0 <= i < payloads.len() implies #[trigger] payloads[i].len() <= u64::MAX by {
            assert(payloads[i] == ws_message_payload(ms[i]));
        }
    }
    assert(fragmentable(ms[0]));
    lemma_fragments_reassemble(ws_message_opcode(ms[0]), payloads, keys, rest);
}

} // verus!
