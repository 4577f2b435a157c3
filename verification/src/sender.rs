//! The default implementation of a WebSocket Sender.

use crate::result::WebSocketResult;
use crate::ws::dataframe::{frame_bytes, frame_writable, DataFrame};
use crate::ws::message::Message;
use crate::ws::sender::Sender as SenderTrait;
use vstd::prelude::*;

verus! {

/// A Sender that provides a default implementation using DataFrames and Messages.
pub struct Sender {
    mask: bool,
}

impl Sender {
    /// Create a new Sender, which masks what it sends when `mask` is set.
    pub fn new(mask: bool) -> (s: Sender)
        ensures
            s.masked_view() == mask,
    {
        Sender { mask }
    }
}

impl SenderTrait for Sender {
    closed spec fn masked_view(&self) -> bool {
        self.mask
    }

    fn is_masked(&self) -> (b: bool) {
        self.mask
    }
}

/// A writer that bundles the bytes to send with a serializer.
pub struct Writer {
    /// The bytes that websocket messages are written to
    pub stream: Vec<u8>,
    /// The serializer that will be used to serialize the messages
    pub sender: Sender,
}

impl Writer {
    /// Sends a single data frame to the remote endpoint.
    pub fn send_dataframe<D: DataFrame>(&mut self, dataframe: &D) -> (r: WebSocketResult<()>)
        requires
            dataframe.reserved_view().len() == 3,
            dataframe.payload_view().len() <= usize::MAX,
        ensures
            final(self).sender == old(self).sender,
            match r {
                Ok(()) => frame_writable(dataframe.opcode_view(), dataframe.payload_view().len())
                    && exists|key: Option<Seq<u8>>|
                    #![trigger frame_bytes(dataframe.last_view(), dataframe.reserved_view(), dataframe.opcode_view(), dataframe.payload_view(), key)]
                    (key is Some) == old(self).sender.masked_view() && (key matches Some(k)
                        ==> k.len() == 4) && final(self).stream@ == old(self).stream@ + frame_bytes(
                        dataframe.last_view(),
                        dataframe.reserved_view(),
                        dataframe.opcode_view(),
                        dataframe.payload_view(),
                        key,
                    ),
                Err(e) => !frame_writable(dataframe.opcode_view(), dataframe.payload_view().len())
                    && final(self).stream@ == old(self).stream@,
            },
    {
        self.sender.send_dataframe(&mut self.stream, dataframe)
    }

    /// Sends a single message to the remote endpoint.
    pub fn send_message<M: Message>(&mut self, message: &M) -> (r: WebSocketResult<()>)
        requires
            message.reserved_view().len() == 3,
            message.payload_view().len() <= usize::MAX,
        ensures
            final(self).sender == old(self).sender,
            match r {
                Ok(()) => frame_writable(message.opcode_view(), message.payload_view().len())
                    && exists|key: Option<Seq<u8>>|
                    #![trigger frame_bytes(message.last_view(), message.reserved_view(), message.opcode_view(), message.payload_view(), key)]
                    (key is Some) == old(self).sender.masked_view() && (key matches Some(k) ==> k.len()
                        == 4) && final(self).stream@ == old(self).stream@ + frame_bytes(
                        message.last_view(),
                        message.reserved_view(),
                        message.opcode_view(),
                        message.payload_view(),
                        key,
                    ),
                Err(e) => !frame_writable(message.opcode_view(), message.payload_view().len())
                    && final(self).stream@ == old(self).stream@,
            },
    {
        self.sender.send_message(&mut self.stream, message)
    }
}

} // verus!
