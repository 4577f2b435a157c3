//! Decoding and encoding of data frames and messages over a byte buffer.
//!
//! A decoder takes the bytes received so far; it consumes the bytes of each
//! item it reads and leaves the rest, so that it can be called again when
//! more bytes arrive.

use crate::dataframe::{frame_of, frame_wf, lemma_frame_roundtrip, DataFrame, FrameView};
use crate::message::{
    lemma_owned_message_roundtrip, message_from_frames, owned_frame, owned_of, OwnedMessage,
    OwnedView,
};
use crate::result::{ProtocolErrorKind, WebSocketError, WebSocketResult};
use crate::ws::dataframe::{frame_bytes, frame_writable, frames_summary, DataFrame as DataFrameTrait};
use crate::ws::message::Message as MessageTrait;
use crate::ws::util::header::{parse_header, read_header};
use std::marker::PhantomData;
use vstd::prelude::*;
use vstd::slice::{slice_subrange, slice_to_vec};

verus! {

/// The largest data frame payload accepted unless told otherwise.
pub const DEFAULT_MAX_DATAFRAME_SIZE: usize = 104857600;

/// The largest message accepted unless told otherwise.
pub const DEFAULT_MAX_MESSAGE_SIZE: usize = 209715200;

/// The most data frames one message may be split into.
pub const MAX_DATAFRAMES_IN_ONE_MESSAGE: usize = 1048576;

/// What each data frame of a message adds to its size, besides its payload.
pub const PER_DATAFRAME_OVERHEAD: usize = 64;

/// Even though a websocket connection may look perfectly symmetrical
/// in reality there are small differences between clients and servers.
/// This type is passed to the codecs to inform them of what role they are in
/// (i.e. that of a Client or Server).
///
/// For those familiar with the protocol, this decides whether the data should be
/// masked or not.
#[derive(Clone, Copy, PartialEq, Eq, Debug, Structural)]
pub enum Context {
    /// Set the codec to act in `Server` mode, used when
    /// implementing a websocket server.
    Server,
    /// Set the codec to act in `Client` mode, used when
    /// implementing a websocket client.
    Client,
}

/// A limit given as a `usize`, held as a `u32`: larger values stand for `u32::MAX`.
pub open spec fn clamp_u32(n: usize) -> u32 {
    if n > u32::MAX {
        u32::MAX
    } else {
        n as u32
    }
}

/// What decoding one data frame from the bytes `s` gives, with the number of
/// bytes it consumes: nothing (and no byte) while the frame is incomplete, an
/// error for a malformed or oversized header, else the frame or the error
/// with which its body is refused (its bytes consumed either way).
pub open spec fn decode_frame(s: Seq<u8>, is_server: bool, max_size: nat) -> (
    Result<Option<FrameView>, WebSocketError>,
    nat,
) {
    match parse_header(s) {
        Err(WebSocketError::NoDataAvailable) => (Ok(None), 0),
        Err(e) => (Err(e), 0),
        Ok((h, pos)) => if h.len > max_size {
            (Err(WebSocketError::ProtocolError(ProtocolErrorKind::ExceededDataFrameSize)), 0)
        } else if pos + h.len > s.len() {
            (Ok(None), 0)
        } else {
            let n = (pos + h.len) as nat;
            match frame_of(h, s.subrange(pos, n as int), is_server) {
                Ok(f) => (Ok(Some(f)), n),
                Err(e) => (Err(e), n),
            }
        },
    }
}

/// The bytes of `v` from index `start` on, as a new vector.
fn tail_of(v: &Vec<u8>, start: usize) -> (out: Vec<u8>)
    requires
        start <= v.len(),
    ensures
        out@ == v@.skip(start as int),
{
    let out = slice_to_vec(slice_subrange(v.as_slice(), start, v.len()));
    assert(out@ =~= v@.skip(start as int));
    out
}

/// A codec for decoding and encoding websocket dataframes.
///
/// This codec decodes dataframes into the crate's default implementation
/// of `DataFrame` but can encode any value that implements the
/// `ws::DataFrame` trait. The type of value to encode is given by the `D`
/// type parameter.
pub struct DataFrameCodec<D> {
    is_server: bool,
    frame_type: PhantomData<D>,
    max_dataframe_size: u32,
}

impl DataFrameCodec<DataFrame> {
    /// Create a new `DataFrameCodec` using the crate's implementation
    /// of dataframes for reading and writing dataframes.
    pub fn default(context: Context) -> (c: Self)
        ensures
            c.is_server() == (context == Context::Server),
            c.max_dataframe_size() == DEFAULT_MAX_DATAFRAME_SIZE,
    {
        DataFrameCodec::new(context)
    }
}

impl<D> DataFrameCodec<D> {
    /// Whether this codec reads masked frames and writes unmasked ones.
    pub closed spec fn is_server(&self) -> bool {
        self.is_server
    }

    /// The largest payload this codec accepts.
    pub closed spec fn max_dataframe_size(&self) -> u32 {
        self.max_dataframe_size
    }

    /// Create a new `DataFrameCodec` using any implementation of
    /// `ws::DataFrame` you want.
    ///
    /// There is a default dataframe size limit imposed. Use `new_with_limits` to override it
    pub fn new(context: Context) -> (c: DataFrameCodec<D>)
        ensures
            c.is_server() == (context == Context::Server),
            c.max_dataframe_size() == DEFAULT_MAX_DATAFRAME_SIZE,
    {
        DataFrameCodec::new_with_limits(context, DEFAULT_MAX_DATAFRAME_SIZE)
    }

    /// Create a new `DataFrameCodec` that refuses frames whose payload is
    /// above `max_dataframe_size` bytes (at most `u32::MAX`).
    pub fn new_with_limits(context: Context, max_dataframe_size: usize) -> (c: DataFrameCodec<D>)
        ensures
            c.is_server() == (context == Context::Server),
            c.max_dataframe_size() == clamp_u32(max_dataframe_size),
    {
        let max_dataframe_size: u32 = if max_dataframe_size > 0xFFFF_FFFF {
            0xFFFF_FFFF
        } else {
            max_dataframe_size as u32
        };
        let is_server = match context {
            Context::Server => true,
            Context::Client => false,
        };
        DataFrameCodec { is_server, frame_type: PhantomData, max_dataframe_size }
    }

    /// Reads one data frame from the start of `src`, consuming its bytes.
    ///
    /// Returns `Ok(None)` and leaves `src` as it is while the frame is incomplete.
    pub fn decode(&mut self, src: &mut Vec<u8>) -> (r: WebSocketResult<Option<DataFrame>>)
        ensures
            *final(self) == *old(self),
            ({
                let (res, n) = decode_frame(
                    old(src)@,
                    old(self).is_server(),
                    old(self).max_dataframe_size() as nat,
                );
                &&& n <= old(src)@.len()
                &&& final(src)@ == old(src)@.skip(n as int)
                &&& match r {
                    Ok(None) => res == Ok::<Option<FrameView>, WebSocketError>(None),
                    Ok(Some(f)) => res == Ok::<Option<FrameView>, WebSocketError>(Some(f@)),
                    Err(e) => res == Err::<Option<FrameView>, WebSocketError>(e),
                }
            }),
    {
        proof {
            crate::ws::util::header::lemma_header_canonical(src@);
        }
        let (header, bytes_read) = match read_header(src.as_slice()) {
            Ok(hp) => hp,
            Err(WebSocketError::NoDataAvailable) => {
                assert(src@.skip(0) =~= src@);
                return Ok(None);
            },
            Err(e) => {
                assert(src@.skip(0) =~= src@);
                return Err(e);
            },
        };
        if header.len > self.max_dataframe_size as u64 {
            assert(src@.skip(0) =~= src@);
            return Err(WebSocketError::ProtocolError(ProtocolErrorKind::ExceededDataFrameSize));
        }
        if header.len + bytes_read as u64 > src.len() as u64 {
            assert(src@.skip(0) =~= src@);
            return Ok(None);
        }
        let end = bytes_read + header.len as usize;
        let body = slice_to_vec(slice_subrange(src.as_slice(), bytes_read, end));
        let rest = tail_of(src, end);
        *src = rest;
        match DataFrame::read_dataframe_body(header, body, self.is_server) {
            Ok(df) => Ok(Some(df)),
            Err(e) => Err(e),
        }
    }
}

impl<D: DataFrameTrait> DataFrameCodec<D> {
    /// Writes the frame `item` to the end of `dst`, masked (with a fresh key)
    /// when this codec is a client's.
    pub fn encode(&mut self, item: D, dst: &mut Vec<u8>) -> (r: WebSocketResult<()>)
        requires
            item.reserved_view().len() == 3,
            item.payload_view().len() <= usize::MAX,
        ensures
            *final(self) == *old(self),
            match r {
                Ok(()) => frame_writable(item.opcode_view(), item.payload_view().len()) && exists|
                    key: Option<Seq<u8>>,
                |
                    #![trigger frame_bytes(item.last_view(), item.reserved_view(), item.opcode_view(), item.payload_view(), key)]
                    (key is Some) == !old(self).is_server() && (key matches Some(k) ==> k.len()
                        == 4) && final(dst)@ == old(dst)@ + frame_bytes(
                        item.last_view(),
                        item.reserved_view(),
                        item.opcode_view(),
                        item.payload_view(),
                        key,
                    ),
                Err(e) => !frame_writable(item.opcode_view(), item.payload_view().len())
                    && final(dst)@ == old(dst)@,
            },
    {
        let masked = !self.is_server;
        item.write_to(dst, masked)
    }
}

/// The payload bytes of the frames `fs`, summed.
pub open spec fn frames_data_len(fs: Seq<FrameView>) -> nat
    decreases fs.len(),
{
    if fs.len() == 0 {
        0
    } else {
        frames_data_len(fs.drop_last()) + fs.last().data.len()
    }
}

/// What forming an owned message from the frames `fs` gives.
pub open spec fn owned_result(fs: Seq<FrameView>) -> Result<Option<OwnedView>, WebSocketError> {
    match message_from_frames(fs) {
        Ok(mv) => Ok(Some(owned_of(mv))),
        Err(e) => Err(e),
    }
}

/// What decoding a message from the bytes `s` gives, when the frames `buf`
/// of an unfinished message are buffered and `cur` is the size counted for
/// them: the outcome, the frames left buffered and the bytes left unread.
///
/// Frames are read one after the other. A control frame forms a message of
/// its own at once; data frames are buffered until the last one of their
/// message, which forms the message from all of them. A message may not
/// begin with a continuation frame nor hold a second data opcode, and may
/// not grow to too many frames or beyond `max_message` bytes.
pub open spec fn decode_message(
    buf: Seq<FrameView>,
    cur: int,
    s: Seq<u8>,
    is_server: bool,
    max_frame: nat,
    max_message: nat,
) -> (Result<Option<OwnedView>, WebSocketError>, Seq<FrameView>, Seq<u8>)
    decreases s.len(),
{
    let (fr, n) = decode_frame(s, is_server, max_frame);
    let rest = s.skip(n as int);
    match fr {
        Err(e) => (Err(e), buf, rest),
        Ok(None) => (Ok(None), buf, rest),
        Ok(Some(f)) => if f.opcode == 0 && buf.len() == 0 {
            (
                Err(WebSocketError::ProtocolError(ProtocolErrorKind::UnexpectedContinuation)),
                buf,
                rest,
            )
        } else if f.opcode >= 8 {
            (owned_result(seq![f]), buf, rest)
        } else if f.opcode >= 1 && buf.len() != 0 {
            (
                Err(WebSocketError::ProtocolError(ProtocolErrorKind::UnexpectedDataFrameOpcode)),
                buf,
                rest,
            )
        } else {
            let buf2 = buf.push(f);
            let cur2 = cur + f.data.len() + PER_DATAFRAME_OVERHEAD;
            if f.finished {
                (owned_result(buf2), Seq::empty(), rest)
            } else if buf2.len() >= MAX_DATAFRAMES_IN_ONE_MESSAGE {
                (
                    Err(WebSocketError::ProtocolError(ProtocolErrorKind::TooManyDataFrames)),
                    buf2,
                    rest,
                )
            } else if cur2 > max_message {
                (
                    Err(WebSocketError::ProtocolError(ProtocolErrorKind::ExceededMessageSize)),
                    buf2,
                    rest,
                )
            } else if 0 < n <= s.len() {
                decode_message(buf2, cur2, rest, is_server, max_frame, max_message)
            } else {
                (Ok(None), buf2, rest)
            }
        },
    }
}

/// A codec for decoding and encoding websocket messages.
///
/// This codec decodes messages into the `OwnedMessage` type, so using this
/// the user will receive messages as `OwnedMessage`s. However it can encode
/// any type of message that implements the `ws::Message` trait (that type is
/// decided by the `M` type parameter) like `OwnedMessage` and `Message`.
pub struct MessageCodec<M: MessageTrait> {
    buffer: Vec<DataFrame>,
    dataframe_codec: DataFrameCodec<DataFrame>,
    message_type: PhantomData<M>,
    max_message_size: u32,
}

impl MessageCodec<OwnedMessage> {
    /// Create a new `MessageCodec` with a role of `context` (either `Client`
    /// or `Server`) that sends and receives `OwnedMessage`s.
    pub fn default(context: Context) -> (c: Self)
        ensures
            c.buffered() == Seq::<FrameView>::empty(),
            c.is_server() == (context == Context::Server),
            c.max_dataframe_size() == DEFAULT_MAX_DATAFRAME_SIZE,
            c.max_message_size() == DEFAULT_MAX_MESSAGE_SIZE,
    {
        Self::new(context)
    }
}

impl<M: MessageTrait> MessageCodec<M> {
    /// The frames of the unfinished message read so far.
    pub closed spec fn buffered(&self) -> Seq<FrameView> {
        self.buffer@.map_values(|f: DataFrame| f@)
    }

    /// Whether this codec reads masked frames and writes unmasked ones.
    pub closed spec fn is_server(&self) -> bool {
        self.dataframe_codec.is_server
    }

    /// The largest frame payload this codec accepts.
    pub closed spec fn max_dataframe_size(&self) -> u32 {
        self.dataframe_codec.max_dataframe_size
    }

    /// The largest message this codec accepts.
    pub closed spec fn max_message_size(&self) -> u32 {
        self.max_message_size
    }

    /// Creates a codec that can encode a custom implementation of a websocket
    /// message, with the default limits on message and data frame size.
    pub fn new(context: Context) -> (c: MessageCodec<M>)
        ensures
            c.buffered() == Seq::<FrameView>::empty(),
            c.is_server() == (context == Context::Server),
            c.max_dataframe_size() == DEFAULT_MAX_DATAFRAME_SIZE,
            c.max_message_size() == DEFAULT_MAX_MESSAGE_SIZE,
    {
        MessageCodec::new_with_limits(context, DEFAULT_MAX_DATAFRAME_SIZE, DEFAULT_MAX_MESSAGE_SIZE)
    }

    /// Creates a codec with the given limits on frame payloads and messages
    /// (each at most `u32::MAX`).
    pub fn new_with_limits(context: Context, max_dataframe_size: usize, max_message_size: usize) -> (c:
        MessageCodec<M>)
        ensures
            c.buffered() == Seq::<FrameView>::empty(),
            c.is_server() == (context == Context::Server),
            c.max_dataframe_size() == clamp_u32(max_dataframe_size),
            c.max_message_size() == clamp_u32(max_message_size),
    {
        let max_message_size: u32 = if max_message_size > 0xFFFF_FFFF {
            0xFFFF_FFFF
        } else {
            max_message_size as u32
        };
        let c = MessageCodec {
            buffer: Vec::new(),
            dataframe_codec: DataFrameCodec::new_with_limits(context, max_dataframe_size),
            message_type: PhantomData,
            max_message_size,
        };
        assert(c.buffered() =~= Seq::<FrameView>::empty());
        c
    }

    /// Reads frames from the start of `src`, consuming their bytes, until a
    /// whole message is read (`Ok(Some(..))`), the bytes run out (`Ok(None)`;
    /// the frames read so far stay buffered) or an error comes up.
    pub fn decode(&mut self, src: &mut Vec<u8>) -> (r: WebSocketResult<Option<OwnedMessage>>)
        ensures
            final(self).is_server() == old(self).is_server(),
            final(self).max_dataframe_size() == old(self).max_dataframe_size(),
            final(self).max_message_size() == old(self).max_message_size(),
            ({
                let (res, buf, rest) = decode_message(
                    old(self).buffered(),
                    frames_data_len(old(self).buffered()) as int,
                    old(src)@,
                    old(self).is_server(),
                    old(self).max_dataframe_size() as nat,
                    old(self).max_message_size() as nat,
                );
                &&& final(src)@ == rest
                &&& final(self).buffered() == buf
                &&& match r {
                    Ok(None) => res == Ok::<Option<OwnedView>, WebSocketError>(None),
                    Ok(Some(m)) => res == Ok::<Option<OwnedView>, WebSocketError>(Some(m@)),
                    Err(e) => res == Err::<Option<OwnedView>, WebSocketError>(e),
                }
            }),
    {
        let ghost is_server = self.dataframe_codec.is_server;
        let ghost max_frame = self.dataframe_codec.max_dataframe_size as nat;
        let ghost max_message = self.max_message_size as nat;
        let ghost goal = decode_message(
            self.buffered(),
            frames_data_len(self.buffered()) as int,
            src@,
            is_server,
            max_frame,
            max_message,
        );
        let mut current: u128 = 0;
        let mut i: usize = 0;
        let count = self.buffer.len();
        while i < count
            invariant
                count == self.buffer@.len(),
                i <= self.buffer@.len(),
                current == frames_data_len(self.buffered().take(i as int)),
                current <= i * 0x1_0000_0000_0000_0000,
                self.buffer@.len() <= usize::MAX,
            decreases self.buffer@.len() - i,
        {
            assert(self.buffered().take((i + 1) as int).drop_last() =~= self.buffered().take(
                i as int,
            ));
            current = current + self.buffer[i].data.len() as u128;
            i = i + 1;
        }
        assert(self.buffered().take(i as int) =~= self.buffered());
        loop
            invariant
                is_server == old(self).dataframe_codec.is_server,
                max_frame == old(self).dataframe_codec.max_dataframe_size as nat,
                max_message == old(self).max_message_size as nat,
                goal == decode_message(
                    old(self).buffered(),
                    frames_data_len(old(self).buffered()) as int,
                    old(src)@,
                    is_server,
                    max_frame,
                    max_message,
                ),
                self.dataframe_codec.is_server == is_server,
                self.dataframe_codec.max_dataframe_size as nat == max_frame,
                self.max_message_size as nat == max_message,
                decode_message(self.buffered(), current as int, src@, is_server, max_frame, max_message)
                    == goal,
                current <= self.buffer@.len() * 0x1_0000_0000_0000_0000,
                self.buffer@.len() <= usize::MAX,
            decreases src@.len(),
        {
            let ghost s0 = src@;
            let ghost b0 = self.buffered();
            let frame = match self.dataframe_codec.decode(src) {
                Ok(Some(f)) => f,
                Ok(None) => {
                    return Ok(None);
                },
                Err(e) => {
                    return Err(e);
                },
            };
            let is_first = self.buffer.len() == 0;
            let finished = frame.finished;
            let op = frame.opcode.to_u8();
            if op == 0 && is_first {
                return Err(WebSocketError::ProtocolError(ProtocolErrorKind::UnexpectedContinuation));
            }
            if op >= 8 {
                let ghost fv = frame@;
                let frames = vec![frame];
                assert(frames_summary(frames@) =~= seq![fv]);
                return match <OwnedMessage as MessageTrait>::from_dataframes(frames) {
                    Ok(m) => Ok(Some(m)),
                    Err(e) => Err(e),
                };
            }
            if op >= 1 && !is_first {
                return Err(WebSocketError::ProtocolError(ProtocolErrorKind::UnexpectedDataFrameOpcode));
            }
            let size = frame.data.len();
            let ghost fv = frame@;
            self.buffer.push(frame);
            assert(self.buffered() =~= b0.push(fv));
            let count = self.buffer.len();
            assert(current + size + 64 <= count * 0x1_0000_0000_0000_0000) by (nonlinear_arith)
                requires
                    current <= (count - 1) * 0x1_0000_0000_0000_0000,
                    size <= 0xFFFF_FFFF,
            ;
            assert(count * 0x1_0000_0000_0000_0000 < 0x1_0000_0000_0000_0000_0000_0000_0000_0000)
                by (nonlinear_arith)
                requires
                    count <= 0xFFFF_FFFF_FFFF_FFFF,
            ;
            current = current + size as u128 + 64;
            if finished {
                let mut buffer: Vec<DataFrame> = Vec::new();
                std::mem::swap(&mut buffer, &mut self.buffer);
                assert(self.buffered() =~= Seq::<FrameView>::empty());
                assert(frames_summary(buffer@) =~= b0.push(fv));
                return match <OwnedMessage as MessageTrait>::from_dataframes(buffer) {
                    Ok(m) => Ok(Some(m)),
                    Err(e) => Err(e),
                };
            }
            if count >= MAX_DATAFRAMES_IN_ONE_MESSAGE {
                return Err(WebSocketError::ProtocolError(ProtocolErrorKind::TooManyDataFrames));
            }
            if current > self.max_message_size as u128 {
                return Err(WebSocketError::ProtocolError(ProtocolErrorKind::ExceededMessageSize));
            }
        }
    }

    /// Writes the message `item` to the end of `dst`, masked (with a fresh
    /// key) when this codec is a client's.
    pub fn encode(&mut self, item: M, dst: &mut Vec<u8>) -> (r: WebSocketResult<()>)
        requires
            item.reserved_view().len() == 3,
            item.payload_view().len() <= usize::MAX,
        ensures
            final(self).buffered() == old(self).buffered(),
            final(self).is_server() == old(self).is_server(),
            match r {
                Ok(()) => frame_writable(item.opcode_view(), item.payload_view().len()) && exists|
                    key: Option<Seq<u8>>,
                |
                    #![trigger frame_bytes(item.last_view(), item.reserved_view(), item.opcode_view(), item.payload_view(), key)]
                    (key is Some) == !old(self).is_server() && (key matches Some(k) ==> k.len()
                        == 4) && final(dst)@ == old(dst)@ + frame_bytes(
                        item.last_view(),
                        item.reserved_view(),
                        item.opcode_view(),
                        item.payload_view(),
                        key,
                    ),
                Err(e) => !frame_writable(item.opcode_view(), item.payload_view().len())
                    && final(dst)@ == old(dst)@,
            },
    {
        let masked = !self.dataframe_codec.is_server;
        item.serialize(dst, masked)
    }
}

/// A frame that the data frame codec writes is read back whole by the codec
/// of the other side (which expects masked frames exactly when they are
/// masked), whatever bytes follow it, as long as its payload is within the limit.
pub proof fn lemma_frame_codec_roundtrip(f: FrameView, key: Option<Seq<u8>>, rest: Seq<u8>, max_size: nat)
    requires
        frame_wf(f),
        key matches Some(k) ==> k.len() == 4,
        f.data.len() <= max_size,
    ensures
        ({
            let bytes = frame_bytes(f.finished, f.reserved, f.opcode, f.data, key);
            decode_frame(bytes + rest, key is Some, max_size) == (
                Ok::<Option<FrameView>, WebSocketError>(Some(f)),
                bytes.len(),
            ) && (bytes + rest).skip(bytes.len() as int) == rest
        }),
{
    let bytes = frame_bytes(f.finished, f.reserved, f.opcode, f.data, key);
    lemma_frame_roundtrip(f, key, rest);
    assert((bytes + rest).skip(bytes.len() as int) =~= rest);
}

/// A message that the message codec writes is read back as that very message
/// by the codec of the other side, with nothing left buffered, whatever bytes
/// follow it, as long as its payload is within the frame limit.
pub proof fn lemma_message_codec_roundtrip(
    m: OwnedView,
    key: Option<Seq<u8>>,
    rest: Seq<u8>,
    max_frame: nat,
    max_message: nat,
)
    requires
        frame_wf(owned_frame(m)),
        key matches Some(k) ==> k.len() == 4,
        owned_frame(m).data.len() <= max_frame,
    ensures
        ({
            let f = owned_frame(m);
            decode_message(
                Seq::empty(),
                0,
                frame_bytes(f.finished, f.reserved, f.opcode, f.data, key) + rest,
                key is Some,
                max_frame,
                max_message,
            ) == (
                Ok::<Option<OwnedView>, WebSocketError>(Some(m)),
                Seq::<FrameView>::empty(),
                rest,
            )
        }),
{
    let f = owned_frame(m);
    lemma_frame_codec_roundtrip(f, key, rest, max_frame);
    lemma_owned_message_roundtrip(m);
    assert(Seq::<FrameView>::empty().push(f) =~= seq![f]);
}

} // verus!
