//! Sending messages, whole or in fragments, as wire data frames.

use crate::result::{IoErrorKind, WebSocketError, WebSocketResult};
use crate::ws::message::dataframe::{
    wire_frame_bytes, wire_length, WebSocketDataFrame, WebSocketDataFrameLength,
    WebSocketOpcode, WireFrameView, WriteWebSocketDataFrame,
};
use crate::ws::message::{ws_message_opcode, ws_message_payload, WebSocketMessage, WsMessageView};
use crate::ws::util::buffer::copy_bytes;
use crate::ws::util::mask::{gen_mask, mask_data, masked};
use vstd::prelude::*;

verus! {

/// The wire frame that carries `payload` with opcode `opcode`, masked with
/// `key` when one is given.
pub open spec fn payload_frame(opcode: u8, payload: Seq<u8>, key: Option<Seq<u8>>, finished: bool) -> WireFrameView {
    WireFrameView {
        finished,
        reserved: seq![false, false, false],
        opcode,
        mask: key,
        length: wire_length(payload.len()),
        data: match key {
            Some(k) => masked(k, payload),
            None => payload,
        },
    }
}

/// The wire frame that carries message `m`, masked with `key` when one is given.
pub open spec fn message_frame(m: WsMessageView, key: Option<Seq<u8>>, finished: bool) -> WireFrameView {
    payload_frame(ws_message_opcode(m), ws_message_payload(m), key, finished)
}

/// Whether a message can be sent in fragments: text and binary messages can.
pub open spec fn fragmentable(m: WsMessageView) -> bool {
    m is Text || m is Binary
}

/// The wire frame of a message, masked with a fresh random key when `mask` is set.
pub fn message_to_dataframe(message: &WebSocketMessage, mask: bool, finished: bool) -> (df:
    WebSocketDataFrame)
    ensures
        df.mask is Some == mask,
        df@ == message_frame(message@, df@.mask, finished),
{
    let masking_key = if mask {
        Some(gen_mask())
    } else {
        None
    };
    let (opcode, mut data) = match message {
        WebSocketMessage::Text(payload) => (
            WebSocketOpcode::Text,
            copy_bytes(payload.as_str().as_bytes()),
        ),
        WebSocketMessage::Binary(payload) => (WebSocketOpcode::Binary, copy_bytes(payload.as_slice())),
        WebSocketMessage::Close(payload) => (WebSocketOpcode::Close, copy_bytes(payload.as_slice())),
        WebSocketMessage::Ping(payload) => (WebSocketOpcode::Ping, copy_bytes(payload.as_slice())),
        WebSocketMessage::Pong(payload) => (WebSocketOpcode::Pong, copy_bytes(payload.as_slice())),
    };
    if let Some(key) = masking_key {
        data = mask_data(key, data.as_slice());
    }
    let length = WebSocketDataFrameLength::new(data.len());
    let df = WebSocketDataFrame {
        finished,
        reserved: [false, false, false],
        opcode,
        mask: masking_key,
        length,
        data,
    };
    assert(df.reserved@ =~= seq![false, false, false]);
    df
}

/// Represents a WebSocket sender, capable of transmitting data to the remote endpoint.
/// Use the send_message() method to send a single, whole message. If you need to send
/// a series of message fragments (e.g. if you need to send a message of unknown length),
/// use the fragment() method to obtain a WebSocketFragmentSerializer, which can be
/// used to do so.
pub struct WebSocketSender {
    mask: bool,
}

/// Create a sender, which masks what it sends when `mask` is set.
pub fn new_sender(mask: bool) -> (s: WebSocketSender)
    ensures
        s.masks() == mask,
{
    WebSocketSender { mask }
}

impl WebSocketSender {
    /// Whether what this sender sends is masked.
    pub closed spec fn masks(&self) -> bool {
        self.mask
    }

    /// Sends a message to the remote endpoint: appends its frame to `writer`.
    pub fn send_message(&mut self, writer: &mut Vec<u8>, message: &WebSocketMessage) -> (r:
        WebSocketResult<()>)
        ensures
            *final(self) == *old(self),
            r is Ok,
            exists|key: Option<Seq<u8>>|
                #![trigger message_frame(message@, key, true)]
                (key is Some) == old(self).masks() && (key matches Some(k) ==> k.len() == 4)
                    && final(writer)@ == old(writer)@ + wire_frame_bytes(
                    message_frame(message@, key, true),
                ),
    {
        let dataframe = message_to_dataframe(message, self.mask, true);
        let ghost key = dataframe@.mask;
        writer.write_websocket_dataframe(dataframe)?;
        assert(key matches Some(k) ==> k.len() == 4);
        Ok(())
    }

    /// Returns a fragment serializer, able to send fragments of a message to the remote endpoint.
    pub fn fragment(&mut self) -> (f: WebSocketFragmentSerializer)
        ensures
            *final(self) == *old(self),
            f.masks() == old(self).masks(),
            !f.is_started(),
    {
        WebSocketFragmentSerializer { mask: self.mask, started: false }
    }
}

/// Allows for the serialization of message fragments, to be sent to the remote endpoint.
/// Any number of messages can be sent (but only text or binary messages, as control
/// messages can never be fragmented) using the send_fragment() method, and when the final
/// fragment is to be sent, use the finish() method. After calling the finish method, the
/// remote endpoint will assemble all of the received message fragments into a single
/// message containing all of the fragment data concatenated together
/// (`lemma_fragmented_send` proves it of every such sequence of calls).
pub struct WebSocketFragmentSerializer {
    mask: bool,
    started: bool,
}

impl WebSocketFragmentSerializer {
    /// Whether what this serializer sends is masked.
    pub closed spec fn masks(&self) -> bool {
        self.mask
    }

    /// Whether a fragmented message has begun and is not finished yet.
    pub closed spec fn is_started(&self) -> bool {
        self.started
    }

    /// Send a fragment of a message - if the message is finished, use the
    /// WebSocketFragmentSerializer::finish() function. Can only be used with a
    /// Text or Binary message. The first fragment carries the message's
    /// opcode; the following ones are continuation frames.
    pub fn send_fragment(&mut self, writer: &mut Vec<u8>, message: &WebSocketMessage) -> (r:
        WebSocketResult<()>)
        ensures
            final(self).masks() == old(self).masks(),
            fragmentable(message@) ==> r is Ok && final(self).is_started() && exists|
                key: Option<Seq<u8>>,
            |
                #![trigger payload_frame(ws_message_opcode(message@), ws_message_payload(message@), key, false)]
                (key is Some) == old(self).masks() && (key matches Some(k) ==> k.len() == 4)
                    && final(writer)@ == old(writer)@ + wire_frame_bytes(
                    payload_frame(
                        if old(self).is_started() {
                            0u8
                        } else {
                            ws_message_opcode(message@)
                        },
                        ws_message_payload(message@),
                        key,
                        false,
                    ),
                ),
            !fragmentable(message@) ==> r == Err::<(), WebSocketError>(
                WebSocketError::IoError(IoErrorKind::InvalidInput),
            ) && final(self).is_started() == old(self).is_started() && final(writer)@ == old(
                writer,
            )@,
    {
        let mut dataframe = message_to_dataframe(message, self.mask, false);
        match dataframe.opcode {
            WebSocketOpcode::Text | WebSocketOpcode::Binary => {},
            _ => {
                return Err(WebSocketError::IoError(IoErrorKind::InvalidInput));
            },
        }
        if self.started {
            dataframe.opcode = WebSocketOpcode::Continuation;
        } else {
            self.started = true;
        }
        let ghost key = dataframe@.mask;
        writer.write_websocket_dataframe(dataframe)?;
        assert(key matches Some(k) ==> k.len() == 4);
        Ok(())
    }

    /// Send the final message and tell the remote endpoint the message is
    /// complete. Can be used with an empty message if necessary. Can only be
    /// used with a Text or Binary message.
    ///
    /// Once this has been called, you can send a new fragmented message using the send_fragment() method.
    pub fn finish(&mut self, writer: &mut Vec<u8>, message: &WebSocketMessage) -> (r:
        WebSocketResult<()>)
        ensures
            final(self).masks() == old(self).masks(),
            fragmentable(message@) ==> r is Ok && !final(self).is_started() && exists|
                key: Option<Seq<u8>>,
            |
                #![trigger payload_frame(ws_message_opcode(message@), ws_message_payload(message@), key, true)]
                (key is Some) == old(self).masks() && (key matches Some(k) ==> k.len() == 4)
                    && final(writer)@ == old(writer)@ + wire_frame_bytes(
                    payload_frame(
                        if old(self).is_started() {
                            0u8
                        } else {
                            ws_message_opcode(message@)
                        },
                        ws_message_payload(message@),
                        key,
                        true,
                    ),
                ),
            !fragmentable(message@) ==> r == Err::<(), WebSocketError>(
                WebSocketError::IoError(IoErrorKind::InvalidInput),
            ) && final(self).is_started() == old(self).is_started() && final(writer)@ == old(
                writer,
            )@,
    {
        let mut dataframe = message_to_dataframe(message, self.mask, true);
        match dataframe.opcode {
            WebSocketOpcode::Text | WebSocketOpcode::Binary => {},
            _ => {
                return Err(WebSocketError::IoError(IoErrorKind::InvalidInput));
            },
        }
        if self.started {
            dataframe.opcode = WebSocketOpcode::Continuation;
            self.started = false;
        }
        let ghost key = dataframe@.mask;
        writer.write_websocket_dataframe(dataframe)?;
        assert(key matches Some(k) ==> k.len() == 4);
        Ok(())
    }
}

} // verus!
