//! Provides a trait for receiving data frames and messages.
//!
//! A receiver reads from the bytes received so far, consuming the bytes of
//! what it reads.

use crate::dataframe::FrameView;
use crate::result::{WebSocketError, WebSocketResult};
use crate::ws::dataframe::{frame_summary, frames_summary, DataFrame};
use crate::ws::message::Message;
use vstd::prelude::*;

verus! {

/// A trait for receiving data frames and messages.
pub trait Receiver: Sized {
    /// The type of dataframe that incoming messages will be serialized to.
    type F: DataFrame;

    /// The type of message that incoming messages will be serialized to.
    type M: Message;

    /// What reading a single data frame from the bytes `input` gives.
    spec fn dataframe_read(&self, input: Seq<u8>) -> Result<FrameView, WebSocketError>;

    /// The bytes left after reading a single data frame from `input`.
    spec fn dataframe_rest(&self, input: Seq<u8>) -> Seq<u8>;

    /// What reading the data frames of one message from the bytes `input` gives.
    spec fn dataframes_read(&self, input: Seq<u8>) -> Result<Seq<FrameView>, WebSocketError>;

    /// The bytes left after reading the data frames of one message from `input`.
    spec fn dataframes_rest(&self, input: Seq<u8>) -> Seq<u8>;

    /// Whether `after` is what this receiver becomes by reading a single
    /// data frame from `input`.
    spec fn dataframe_after(&self, input: Seq<u8>, after: Self) -> bool;

    /// Whether `after` is what this receiver becomes by reading the data
    /// frames of one message from `input`.
    spec fn dataframes_after(&self, input: Seq<u8>, after: Self) -> bool;

    /// Reads a single data frame from the start of `input`.
    fn recv_dataframe(&mut self, input: &mut Vec<u8>) -> (r: WebSocketResult<Self::F>)
        ensures
            old(self).dataframe_after(old(input)@, *final(self)),
            final(input)@ == old(self).dataframe_rest(old(input)@),
            match old(self).dataframe_read(old(input)@) {
                Ok(f) => r matches Ok(d) && frame_summary(d) == f,
                Err(e) => r == Err::<Self::F, WebSocketError>(e),
            },
    ;

    /// Returns the data frames that constitute one message.
    fn recv_message_dataframes(&mut self, input: &mut Vec<u8>) -> (r: WebSocketResult<Vec<Self::F>>)
        ensures
            old(self).dataframes_after(old(input)@, *final(self)),
            final(input)@ == old(self).dataframes_rest(old(input)@),
            match old(self).dataframes_read(old(input)@) {
                Ok(fs) => r matches Ok(ds) && frames_summary(ds@) == fs,
                Err(e) => r == Err::<Vec<Self::F>, WebSocketError>(e),
            },
    ;

    /// Returns an iterator over incoming data frames.
    fn incoming_dataframes<'a>(&'a mut self, input: &'a mut Vec<u8>) -> (it: DataFrameIterator<'a, Self>)
        ensures
            it.receiver() == *old(self),
            it.input() == old(input)@,
    {
        DataFrameIterator { reader: input, inner: self }
    }

    /// Reads a single message from this receiver: the data frames of one
    /// message, formed into a message.
    fn recv_message(&mut self, input: &mut Vec<u8>) -> (r: WebSocketResult<Self::M>)
        ensures
            old(self).dataframes_after(old(input)@, *final(self)),
            final(input)@ == old(self).dataframes_rest(old(input)@),
            match old(self).dataframes_read(old(input)@) {
                Ok(fs) => <Self::M as Message>::formed_from(fs, r),
                Err(e) => r == Err::<Self::M, WebSocketError>(e),
            },
    {
        let dataframes = self.recv_message_dataframes(input)?;
        Self::M::from_dataframes(dataframes)
    }

    /// Returns an iterator over incoming messages.
    fn incoming_messages<'a>(&'a mut self, input: &'a mut Vec<u8>) -> (it: MessageIterator<'a, Self>)
        ensures
            it.receiver() == *old(self),
            it.input() == old(input)@,
    {
        MessageIterator { reader: input, inner: self }
    }
}

/// An iterator over data frames from a Receiver.
pub struct DataFrameIterator<'a, Recv> {
    reader: &'a mut Vec<u8>,
    inner: &'a mut Recv,
}

impl<'a, Recv> DataFrameIterator<'a, Recv> {
    /// The receiver that reads.
    pub closed spec fn receiver(&self) -> Recv {
        *self.inner
    }

    /// The bytes not yet read.
    pub closed spec fn input(&self) -> Seq<u8> {
        self.reader@
    }
}

impl<'a, Recv: Receiver> DataFrameIterator<'a, Recv> {
    /// Get the next data frame from the receiver. Always returns `Some`: what
    /// the receiver reads from the bytes not yet read.
    pub fn next(&mut self) -> (r: Option<WebSocketResult<Recv::F>>)
        ensures
            old(self).receiver().dataframe_after(old(self).input(), final(self).receiver()),
            final(self).input() == old(self).receiver().dataframe_rest(old(self).input()),
            r matches Some(x) && match old(self).receiver().dataframe_read(old(self).input()) {
                Ok(f) => x matches Ok(d) && frame_summary(d) == f,
                Err(e) => x == Err::<Recv::F, WebSocketError>(e),
            },
    {
        Some(self.inner.recv_dataframe(self.reader))
    }
}

/// An iterator over messages from a Receiver.
pub struct MessageIterator<'a, Recv> {
    reader: &'a mut Vec<u8>,
    inner: &'a mut Recv,
}

impl<'a, Recv> MessageIterator<'a, Recv> {
    /// The receiver that reads.
    pub closed spec fn receiver(&self) -> Recv {
        *self.inner
    }

    /// The bytes not yet read.
    pub closed spec fn input(&self) -> Seq<u8> {
        self.reader@
    }
}

impl<'a, Recv: Receiver> MessageIterator<'a, Recv> {
    /// Get the next message from the receiver. Always returns `Some`: the
    /// message the receiver reads from the bytes not yet read.
    pub fn next(&mut self) -> (r: Option<WebSocketResult<Recv::M>>)
        ensures
            old(self).receiver().dataframes_after(old(self).input(), final(self).receiver()),
            final(self).input() == old(self).receiver().dataframes_rest(old(self).input()),
            r matches Some(x) && match old(self).receiver().dataframes_read(old(self).input()) {
                Ok(fs) => <Recv::M as Message>::formed_from(fs, x),
                Err(e) => x == Err::<Recv::M, WebSocketError>(e),
            },
    {
        Some(self.inner.recv_message(self.reader))
    }
}

} // verus!
