//! Provides a trait for sending data frames and messages.

use crate::result::WebSocketResult;
use crate::ws::dataframe::{frame_bytes, frame_writable, DataFrame};
use crate::ws::message::Message;
use vstd::prelude::*;

verus! {

/// A trait for sending data frames and messages.
pub trait Sender: Sized {
    /// Whether what this sender sends is masked.
    spec fn masked_view(&self) -> bool;

    /// Should the messages sent be masked.
    /// See the [RFC](https://tools.ietf.org/html/rfc6455#section-5.3)
    /// for more detail.
    fn is_masked(&self) -> (b: bool)
        ensures
            b == self.masked_view(),
    ;

    /// Sends a single data frame using this sender: appends it to `writer`.
    fn send_dataframe<D: DataFrame>(&mut self, writer: &mut Vec<u8>, dataframe: &D) -> (r:
        WebSocketResult<()>)
        requires
            dataframe.reserved_view().len() == 3,
            dataframe.payload_view().len() <= usize::MAX,
        ensures
            match r {
                Ok(()) => frame_writable(dataframe.opcode_view(), dataframe.payload_view().len())
                    && exists|key: Option<Seq<u8>>|
                    #![trigger frame_bytes(dataframe.last_view(), dataframe.reserved_view(), dataframe.opcode_view(), dataframe.payload_view(), key)]
                    (key is Some) == old(self).masked_view() && (key matches Some(k) ==> k.len()
                        == 4) && final(writer)@ == old(writer)@ + frame_bytes(
                        dataframe.last_view(),
                        dataframe.reserved_view(),
                        dataframe.opcode_view(),
                        dataframe.payload_view(),
                        key,
                    ),
                Err(e) => !frame_writable(dataframe.opcode_view(), dataframe.payload_view().len())
                    && final(writer)@ == old(writer)@,
            },
        default_ensures
            *final(self) == *old(self),
    {
        dataframe.write_to(writer, self.is_masked())?;
        Ok(())
    }

    /// Sends a single message using this sender: appends it to `writer`.
    fn send_message<M: Message>(&mut self, writer: &mut Vec<u8>, message: &M) -> (r: WebSocketResult<
        (),
    >)
        requires
            message.reserved_view().len() == 3,
            message.payload_view().len() <= usize::MAX,
        ensures
            match r {
                Ok(()) => frame_writable(message.opcode_view(), message.payload_view().len())
                    && exists|key: Option<Seq<u8>>|
                    #![trigger frame_bytes(message.last_view(), message.reserved_view(), message.opcode_view(), message.payload_view(), key)]
                    (key is Some) == old(self).masked_view() && (key matches Some(k) ==> k.len()
                        == 4) && final(writer)@ == old(writer)@ + frame_bytes(
                        message.last_view(),
                        message.reserved_view(),
                        message.opcode_view(),
                        message.payload_view(),
                        key,
                    ),
                Err(e) => !frame_writable(message.opcode_view(), message.payload_view().len())
                    && final(writer)@ == old(writer)@,
            },
        default_ensures
            *final(self) == *old(self),
    {
        message.serialize(writer, self.is_masked())?;
        Ok(())
    }
}

} // verus!
