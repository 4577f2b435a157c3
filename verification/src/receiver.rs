//! The default implementation of a WebSocket Receiver.

use crate::codec::ws::{
    clamp_u32, frames_data_len, DEFAULT_MAX_DATAFRAME_SIZE, DEFAULT_MAX_MESSAGE_SIZE,
    MAX_DATAFRAMES_IN_ONE_MESSAGE, PER_DATAFRAME_OVERHEAD,
};
use crate::dataframe::{frame_wf, lemma_frame_roundtrip, parse_frame, DataFrame, FrameView, Opcode};
use crate::message::{
    lemma_owned_message_roundtrip, message_from_frames, owned_frame, owned_of, OwnedMessage,
    OwnedView,
};
use crate::ws::dataframe::frame_bytes;
use crate::result::{ProtocolErrorKind, WebSocketError, WebSocketResult};
use crate::ws::dataframe::frames_summary;
use crate::ws::message::Message as MessageTrait;
use crate::ws::receiver::Receiver as ReceiverTrait;
use crate::ws::receiver::{DataFrameIterator, MessageIterator};
use vstd::prelude::*;
use vstd::slice::{slice_subrange, slice_to_vec};

verus! {

/// The frames of the rest of a message whose frames `buf` are read (and
/// counted as `cur` bytes), read from the bytes `s`: the outcome, the frames
/// left buffered and the bytes left unread.
///
/// Continuation frames are added to the message until its last frame; a
/// control frame in between is handed out on its own; any other frame is an
/// error. An unfinished message may not grow to too many frames, nor reach
/// `max_message` bytes.
pub open spec fn receive_rest(
    buf: Seq<FrameView>,
    cur: int,
    s: Seq<u8>,
    mask: bool,
    max_frame: nat,
    max_message: nat,
) -> (Result<Seq<FrameView>, WebSocketError>, Seq<FrameView>, Seq<u8>)
    decreases s.len(),
{
    match parse_frame(s, mask, Some(max_frame)) {
        Err(e) => (Err(e), buf, s),
        Ok((f, n)) => {
            let rest = s.skip(n);
            if f.opcode == 0 {
                let buf2 = buf.push(f);
                let cur2 = cur + f.data.len() + PER_DATAFRAME_OVERHEAD;
                if f.finished {
                    (Ok(buf2), Seq::empty(), rest)
                } else if buf2.len() >= MAX_DATAFRAMES_IN_ONE_MESSAGE {
                    (
                        Err(WebSocketError::ProtocolError(ProtocolErrorKind::TooManyDataFrames)),
                        buf2,
                        rest,
                    )
                } else if cur2 >= max_message {
                    (
                        Err(WebSocketError::ProtocolError(ProtocolErrorKind::ExceededMessageSize)),
                        buf2,
                        rest,
                    )
                } else if 0 < n <= s.len() {
                    receive_rest(buf2, cur2, rest, mask, max_frame, max_message)
                } else {
                    (Ok(buf2), Seq::empty(), rest)
                }
            } else if f.opcode >= 8 {
                (Ok(seq![f]), buf, rest)
            } else {
                (
                    Err(WebSocketError::ProtocolError(ProtocolErrorKind::UnexpectedDataFrameOpcode)),
                    buf,
                    rest,
                )
            }
        },
    }
}

/// The frames of one message read from the bytes `s` when the frames `buf`
/// of an unfinished message are buffered: the outcome, the frames left
/// buffered and the bytes left unread. With nothing buffered, the first frame
/// begins a message and may not be a continuation frame.
pub open spec fn receive_message_frames(
    buf: Seq<FrameView>,
    s: Seq<u8>,
    mask: bool,
    max_frame: nat,
    max_message: nat,
) -> (Result<Seq<FrameView>, WebSocketError>, Seq<FrameView>, Seq<u8>) {
    let cur = frames_data_len(buf) as int;
    if buf.len() == 0 {
        match parse_frame(s, mask, Some(max_frame)) {
            Err(e) => (Err(e), buf, s),
            Ok((f, n)) => {
                let rest = s.skip(n);
                if f.opcode == 0 {
                    (
                        Err(WebSocketError::ProtocolError(ProtocolErrorKind::UnexpectedContinuation)),
                        buf,
                        rest,
                    )
                } else if f.finished {
                    (Ok(seq![f]), Seq::empty(), rest)
                } else {
                    receive_rest(
                        seq![f],
                        cur + f.data.len() + PER_DATAFRAME_OVERHEAD,
                        rest,
                        mask,
                        max_frame,
                        max_message,
                    )
                }
            },
        }
    } else {
        receive_rest(buf, cur, s, mask, max_frame, max_message)
    }
}

/// The message read from the bytes `s` when the frames `buf` are buffered:
/// the owned message its frames form, or the error of reading or forming it.
pub open spec fn receive_message(
    buf: Seq<FrameView>,
    s: Seq<u8>,
    mask: bool,
    max_frame: nat,
    max_message: nat,
) -> Result<OwnedView, WebSocketError> {
    match receive_message_frames(buf, s, mask, max_frame, max_message).0 {
        Err(e) => Err(e),
        Ok(fs) => match message_from_frames(fs) {
            Ok(mv) => Ok(owned_of(mv)),
            Err(e) => Err(e),
        },
    }
}

/// The bytes of `v` from index `start` on, as a new vector.
fn drop_front(v: &Vec<u8>, start: usize) -> (out: Vec<u8>)
    requires
        start <= v.len(),
    ensures
        out@ == v@.skip(start as int),
{
    let out = slice_to_vec(slice_subrange(v.as_slice(), start, v.len()));
    assert(out@ =~= v@.skip(start as int));
    out
}

/// A Receiver that reads data frames and messages from the bytes received
/// so far, with the crate's `DataFrame` and `OwnedMessage`.
pub struct Receiver {
    buffer: Vec<DataFrame>,
    mask: bool,
    max_dataframe_size: u32,
    max_message_size: u32,
}

impl Receiver {
    /// The frames of the unfinished message read so far.
    pub closed spec fn buffered(&self) -> Seq<FrameView> {
        self.buffer@.map_values(|f: DataFrame| f@)
    }

    /// Whether the frames read are expected to be masked.
    pub closed spec fn mask(&self) -> bool {
        self.mask
    }

    /// The largest frame payload accepted.
    pub closed spec fn max_dataframe_size(&self) -> u32 {
        self.max_dataframe_size
    }

    /// The message size at which no more frames are read.
    pub closed spec fn max_message_size(&self) -> u32 {
        self.max_message_size
    }

    /// Create a new Receiver, which expects masked frames when `mask` is set.
    ///
    /// Uses built-in limits for dataframe and message sizes.
    pub fn new(mask: bool) -> (r: Receiver)
        ensures
            r.buffered() == Seq::<FrameView>::empty(),
            r.mask() == mask,
            r.max_dataframe_size() == DEFAULT_MAX_DATAFRAME_SIZE,
            r.max_message_size() == DEFAULT_MAX_MESSAGE_SIZE,
    {
        Receiver::new_with_limits(mask, DEFAULT_MAX_DATAFRAME_SIZE, DEFAULT_MAX_MESSAGE_SIZE)
    }

    /// Create a new Receiver with configurable limits.
    ///
    /// Sizes larger than `u32::MAX` stand for `u32::MAX`.
    ///
    /// Note that `max_message_size` denotes message size where no new dataframes would be read,
    /// so actual maximum message size is larger.
    pub fn new_with_limits(mask: bool, max_dataframe_size: usize, max_message_size: usize) -> (r:
        Receiver)
        ensures
            r.buffered() == Seq::<FrameView>::empty(),
            r.mask() == mask,
            r.max_dataframe_size() == clamp_u32(max_dataframe_size),
            r.max_message_size() == clamp_u32(max_message_size),
    {
        let max_dataframe_size: u32 = if max_dataframe_size > 0xFFFF_FFFF {
            0xFFFF_FFFF
        } else {
            max_dataframe_size as u32
        };
        let max_message_size: u32 = if max_message_size > 0xFFFF_FFFF {
            0xFFFF_FFFF
        } else {
            max_message_size as u32
        };
        let r = Receiver { buffer: Vec::new(), mask, max_dataframe_size, max_message_size };
        assert(r.buffered() =~= Seq::<FrameView>::empty());
        r
    }
}

impl ReceiverTrait for Receiver {
    type F = DataFrame;

    type M = OwnedMessage;

    open spec fn dataframe_read(&self, input: Seq<u8>) -> Result<FrameView, WebSocketError> {
        match parse_frame(input, self.mask(), Some(self.max_dataframe_size() as nat)) {
            Ok((f, n)) => Ok(f),
            Err(e) => Err(e),
        }
    }

    open spec fn dataframe_rest(&self, input: Seq<u8>) -> Seq<u8> {
        match parse_frame(input, self.mask(), Some(self.max_dataframe_size() as nat)) {
            Ok((f, n)) => input.skip(n),
            Err(e) => input,
        }
    }

    open spec fn dataframe_after(&self, input: Seq<u8>, after: Self) -> bool {
        after == *self
    }

    open spec fn dataframes_after(&self, input: Seq<u8>, after: Self) -> bool {
        &&& after.mask() == self.mask()
        &&& after.max_dataframe_size() == self.max_dataframe_size()
        &&& after.max_message_size() == self.max_message_size()
        &&& after.buffered() == receive_message_frames(
            self.buffered(),
            input,
            self.mask(),
            self.max_dataframe_size() as nat,
            self.max_message_size() as nat,
        ).1
    }

    open spec fn dataframes_read(&self, input: Seq<u8>) -> Result<Seq<FrameView>, WebSocketError> {
        receive_message_frames(
            self.buffered(),
            input,
            self.mask(),
            self.max_dataframe_size() as nat,
            self.max_message_size() as nat,
        ).0
    }

    open spec fn dataframes_rest(&self, input: Seq<u8>) -> Seq<u8> {
        receive_message_frames(
            self.buffered(),
            input,
            self.mask(),
            self.max_dataframe_size() as nat,
            self.max_message_size() as nat,
        ).2
    }

    /// Reads a single data frame from the start of `input`, consuming its
    /// bytes; on an error nothing is consumed.
    fn recv_dataframe(&mut self, input: &mut Vec<u8>) -> (r: WebSocketResult<DataFrame>)
        ensures
            *final(self) == *old(self),
            match parse_frame(old(input)@, old(self).mask(), Some(old(self).max_dataframe_size() as nat)) {
                Ok((f, n)) => r matches Ok(df) && df@ == f && final(input)@ == old(input)@.skip(n),
                Err(e) => r == Err::<DataFrame, WebSocketError>(e) && final(input)@ == old(input)@,
            },
    {
        let (df, n) = DataFrame::read_dataframe_with_limit(
            input.as_slice(),
            self.mask,
            self.max_dataframe_size as usize,
        )?;
        proof {
            crate::ws::util::header::lemma_header_canonical(input@);
        }
        let rest = drop_front(input, n);
        *input = rest;
        Ok(df)
    }

    /// Returns the data frames that constitute one message, consuming their
    /// bytes; the frames of a message that is not complete yet stay buffered.
    fn recv_message_dataframes(&mut self, input: &mut Vec<u8>) -> (r: WebSocketResult<
        Vec<DataFrame>,
    >)
        ensures
            final(self).mask() == old(self).mask(),
            final(self).max_dataframe_size() == old(self).max_dataframe_size(),
            final(self).max_message_size() == old(self).max_message_size(),
            ({
                let (res, buf, rest) = receive_message_frames(
                    old(self).buffered(),
                    old(input)@,
                    old(self).mask(),
                    old(self).max_dataframe_size() as nat,
                    old(self).max_message_size() as nat,
                );
                &&& final(input)@ == rest
                &&& final(self).buffered() == buf
                &&& match r {
                    Ok(fs) => res == Ok::<Seq<FrameView>, WebSocketError>(
                        fs@.map_values(|f: DataFrame| f@),
                    ),
                    Err(e) => res == Err::<Seq<FrameView>, WebSocketError>(e),
                }
            }),
    {
        let ghost mask = self.mask;
        let ghost max_frame = self.max_dataframe_size as nat;
        let ghost max_message = self.max_message_size as nat;
        let ghost goal = receive_message_frames(
            self.buffered(),
            input@,
            mask,
            max_frame,
            max_message,
        );
        let mut current: u128 = 0;
        let mut i: usize = 0;
        let count = self.buffer.len();
        while i < count
            invariant
                count == self.buffer@.len(),
                i <= self.buffer@.len(),
                current == frames_data_len(self.buffered().take(i as int)),
                current <= i * 0x1_0000_0000_0000_0000,
            decreases self.buffer@.len() - i,
        {
            assert(self.buffered().take((i + 1) as int).drop_last() =~= self.buffered().take(
                i as int,
            ));
            current = current + self.buffer[i].data.len() as u128;
            i = i + 1;
        }
        assert(self.buffered().take(i as int) =~= self.buffered());
        if count == 0 {
            let first = self.recv_dataframe(input)?;
            if first.opcode == Opcode::Continuation {
                return Err(WebSocketError::ProtocolError(ProtocolErrorKind::UnexpectedContinuation));
            }
            let size = first.data.len();
            let finished = first.finished;
            let ghost fv = first@;
            self.buffer.push(first);
            assert(self.buffered() =~= seq![fv]);
            current = current + size as u128 + 64;
            if finished {
                let mut buffer: Vec<DataFrame> = Vec::new();
                std::mem::swap(&mut buffer, &mut self.buffer);
                assert(self.buffered() =~= Seq::<FrameView>::empty());
                assert(buffer@.map_values(|f: DataFrame| f@) =~= seq![fv]);
                return Ok(buffer);
            }
        }
        loop
            invariant
                mask == old(self).mask,
                max_frame == old(self).max_dataframe_size as nat,
                max_message == old(self).max_message_size as nat,
                goal == receive_message_frames(
                    old(self).buffered(),
                    old(input)@,
                    mask,
                    max_frame,
                    max_message,
                ),
                self.mask == mask,
                self.max_dataframe_size as nat == max_frame,
                self.max_message_size as nat == max_message,
                receive_rest(self.buffered(), current as int, input@, mask, max_frame, max_message)
                    == goal,
                current <= self.buffer@.len() * 0x1_0000_0000_0000_0000,
            decreases input@.len(),
        {
            let ghost b0 = self.buffered();
            let ghost s0 = input@;
            let next = self.recv_dataframe(input)?;
            proof {
                crate::ws::util::header::lemma_header_canonical(s0);
            }
            let finished = next.finished;
            let op = next.opcode.to_u8();
            if op >= 8 {
                let ghost fv = next@;
                let frames = vec![next];
                assert(frames@.map_values(|f: DataFrame| f@) =~= seq![fv]);
                return Ok(frames);
            }
            if op != 0 {
                return Err(WebSocketError::ProtocolError(ProtocolErrorKind::UnexpectedDataFrameOpcode));
            }
            let size = next.data.len();
            assert(size <= self.max_dataframe_size);
            let ghost fv = next@;
            self.buffer.push(next);
            assert(self.buffered() =~= b0.push(fv));
            let count = self.buffer.len();
            assert(current + size + 64 <= count * 0x1_0000_0000_0000_0000) by (nonlinear_arith)
                requires
                    current <= (count - 1) * 0x1_0000_0000_0000_0000,
                    size <= 0xFFFF_FFFF,
            ;
            assert(count * 0x1_0000_0000_0000_0000 < 0x1_0000_0000_0000_0000_0000_0000_0000_0000)
                by (nonlinear_arith)
                requires
                    count <= 0xFFFF_FFFF_FFFF_FFFF,
            ;
            current = current + size as u128 + 64;
            if finished {
                let mut buffer: Vec<DataFrame> = Vec::new();
                std::mem::swap(&mut buffer, &mut self.buffer);
                assert(self.buffered() =~= Seq::<FrameView>::empty());
                assert(buffer@.map_values(|f: DataFrame| f@) =~= b0.push(fv));
                return Ok(buffer);
            }
            if count >= MAX_DATAFRAMES_IN_ONE_MESSAGE {
                return Err(WebSocketError::ProtocolError(ProtocolErrorKind::TooManyDataFrames));
            }
            if current >= self.max_message_size as u128 {
                return Err(WebSocketError::ProtocolError(ProtocolErrorKind::ExceededMessageSize));
            }
        }
    }

    /// Reads a single message, consuming the bytes of its frames.
    fn recv_message(&mut self, input: &mut Vec<u8>) -> (r: WebSocketResult<OwnedMessage>)
        ensures
            final(self).mask() == old(self).mask(),
            final(self).max_dataframe_size() == old(self).max_dataframe_size(),
            final(self).max_message_size() == old(self).max_message_size(),
            ({
                let (res, buf, rest) = receive_message_frames(
                    old(self).buffered(),
                    old(input)@,
                    old(self).mask(),
                    old(self).max_dataframe_size() as nat,
                    old(self).max_message_size() as nat,
                );
                &&& final(input)@ == rest
                &&& final(self).buffered() == buf
            }),
            match receive_message(
                old(self).buffered(),
                old(input)@,
                old(self).mask(),
                old(self).max_dataframe_size() as nat,
                old(self).max_message_size() as nat,
            ) {
                Ok(m) => r matches Ok(om) && om@ == m,
                Err(e) => r == Err::<OwnedMessage, WebSocketError>(e),
            },
    {
        let dataframes = self.recv_message_dataframes(input)?;
        proof {
            assert(frames_summary(dataframes@) =~= dataframes@.map_values(|f: DataFrame| f@));
        }
        <OwnedMessage as MessageTrait>::from_dataframes(dataframes)
    }
}

/// This reader bundles the bytes received so far with a parsing algorithm.
pub struct Reader {
    /// the bytes received and not yet read
    pub stream: Vec<u8>,
    /// the parser to parse bytes into messages
    pub receiver: Receiver,
}

impl Reader {
    /// Reads a single data frame from the remote endpoint.
    pub fn recv_dataframe(&mut self) -> (r: WebSocketResult<DataFrame>)
        ensures
            final(self).receiver == old(self).receiver,
            match parse_frame(
                old(self).stream@,
                old(self).receiver.mask(),
                Some(old(self).receiver.max_dataframe_size() as nat),
            ) {
                Ok((f, n)) => r matches Ok(df) && df@ == f && final(self).stream@ == old(
                    self,
                ).stream@.skip(n),
                Err(e) => r == Err::<DataFrame, WebSocketError>(e) && final(self).stream@ == old(
                    self,
                ).stream@,
            },
    {
        self.receiver.recv_dataframe(&mut self.stream)
    }

    /// Returns an iterator over incoming data frames.
    pub fn incoming_dataframes(&mut self) -> (it: DataFrameIterator<'_, Receiver>)
        ensures
            it.receiver() == old(self).receiver,
            it.input() == old(self).stream@,
    {
        self.receiver.incoming_dataframes(&mut self.stream)
    }

    /// Reads a single message from this receiver.
    pub fn recv_message(&mut self) -> (r: WebSocketResult<OwnedMessage>)
        ensures
            final(self).receiver.mask() == old(self).receiver.mask(),
            final(self).receiver.max_dataframe_size() == old(self).receiver.max_dataframe_size(),
            final(self).receiver.max_message_size() == old(self).receiver.max_message_size(),
            ({
                let (res, buf, rest) = receive_message_frames(
                    old(self).receiver.buffered(),
                    old(self).stream@,
                    old(self).receiver.mask(),
                    old(self).receiver.max_dataframe_size() as nat,
                    old(self).receiver.max_message_size() as nat,
                );
                &&& final(self).stream@ == rest
                &&& final(self).receiver.buffered() == buf
            }),
            match receive_message(
                old(self).receiver.buffered(),
                old(self).stream@,
                old(self).receiver.mask(),
                old(self).receiver.max_dataframe_size() as nat,
                old(self).receiver.max_message_size() as nat,
            ) {
                Ok(m) => r matches Ok(om) && om@ == m,
                Err(e) => r == Err::<OwnedMessage, WebSocketError>(e),
            },
    {
        self.receiver.recv_message(&mut self.stream)
    }

    /// An iterator over incoming messsages.
    pub fn incoming_messages(&mut self) -> (it: MessageIterator<'_, Receiver>)
        ensures
            it.receiver() == old(self).receiver,
            it.input() == old(self).stream@,
    {
        self.receiver.incoming_messages(&mut self.stream)
    }
}

/// A message that a sender writes is received, with nothing buffered, as
/// that very message by a receiver that expects masked frames exactly when the
/// sender masks, consuming exactly its bytes, as long as its payload is within
/// the frame limit.
pub proof fn lemma_receiver_roundtrip(
    m: OwnedView,
    key: Option<Seq<u8>>,
    rest: Seq<u8>,
    max_frame: nat,
    max_message: nat,
)
    requires
        frame_wf(owned_frame(m)),
        key matches Some(k) ==> k.len() == 4,
        owned_frame(m).data.len() <= max_frame,
    ensures
        ({
            let f = owned_frame(m);
            let s = frame_bytes(f.finished, f.reserved, f.opcode, f.data, key) + rest;
            &&& receive_message_frames(Seq::empty(), s, key is Some, max_frame, max_message) == (
                Ok::<Seq<FrameView>, WebSocketError>(seq![f]),
                Seq::<FrameView>::empty(),
                rest,
            )
            &&& receive_message(Seq::empty(), s, key is Some, max_frame, max_message) == Ok::<
                OwnedView,
                WebSocketError,
            >(m)
        }),
{
    let f = owned_frame(m);
    let bytes = frame_bytes(f.finished, f.reserved, f.opcode, f.data, key);
    lemma_frame_roundtrip(f, key, rest);
    lemma_owned_message_roundtrip(m);
    assert((bytes + rest).skip(bytes.len() as int) =~= rest);
}

/// Whether the frame `f`, written with the masking key `key`, is read back
/// by a receiver that expects masked frames exactly when `mask` is set and
/// takes frames of up to `max_frame` bytes.
pub open spec fn frame_sendable(f: FrameView, key: Option<Seq<u8>>, mask: bool, max_frame: nat) -> bool {
    &&& frame_wf(f)
    &&& (key is Some) == mask
    &&& (key matches Some(k) ==> k.len() == 4)
    &&& f.data.len() <= max_frame
}

/// The bytes of the frames `fs` written one after the other, frame `i` with
/// the masking key `keys[i]`.
pub open spec fn frames_written(fs: Seq<FrameView>, keys: Seq<Option<Seq<u8>>>) -> Seq<u8>
    decreases fs.len(),
{
    if fs.len() == 0 {
        Seq::empty()
    } else {
        frame_bytes(fs[0].finished, fs[0].reserved, fs[0].opcode, fs[0].data, keys[0])
            + frames_written(fs.drop_first(), keys.drop_first())
    }
}

/// What the frames `fs` count towards the size limit of a message while it
/// is read: each its payload and the overhead of a frame.
pub open spec fn frames_overhead_len(fs: Seq<FrameView>) -> nat
    decreases fs.len(),
{
    if fs.len() == 0 {
        0
    } else {
        fs[0].data.len() + PER_DATAFRAME_OVERHEAD as nat + frames_overhead_len(fs.drop_first())
    }
}

/// Whether every frame of `fs` is sendable with its key, is a continuation
/// frame and, but for the last when `last_finished`, is not the last of its
/// message.
pub open spec fn continuations_sendable(
    fs: Seq<FrameView>,
    keys: Seq<Option<Seq<u8>>>,
    mask: bool,
    max_frame: nat,
    last_finished: bool,
) -> bool {
    &&& keys.len() == fs.len()
    &&& forall|i: int| 0 <= i < fs.len() ==> #[trigger] frame_sendable(fs[i], keys[i], mask, max_frame)
    &&& forall|i: int| 0 <= i < fs.len() ==> #[trigger] fs[i].opcode == 0
    &&& forall|i: int|
        0 <= i < fs.len() ==> (#[trigger] fs[i].finished <==> (last_finished && i == fs.len() - 1))
}

/// A frame written is read back whole, however the receiver limits frames
/// that it fits.
proof fn lemma_frame_read(f: FrameView, key: Option<Seq<u8>>, rest: Seq<u8>, mask: bool, max_frame: nat)
    requires
        frame_sendable(f, key, mask, max_frame),
    ensures
        ({
            let b = frame_bytes(f.finished, f.reserved, f.opcode, f.data, key);
            &&& parse_frame(b + rest, mask, Some(max_frame)) == Ok::<(FrameView, int), WebSocketError>(
                (f, b.len() as int),
            )
            &&& 0 < b.len()
            &&& (b + rest).skip(b.len() as int) == rest
        }),
{
    let b = frame_bytes(f.finished, f.reserved, f.opcode, f.data, key);
    lemma_frame_roundtrip(f, key, rest);
    assert((b + rest).skip(b.len() as int) =~= rest);
}

/// Continuation frames that are not the last of their message, then a
/// control frame: the control frame is handed out, and the continuation
/// frames are added to the buffered frames.
#[verifier::rlimit(60)]
#[verifier::spinoff_prover]
proof fn lemma_rest_then_control(
    buf: Seq<FrameView>,
    cur: int,
    us: Seq<FrameView>,
    ku: Seq<Option<Seq<u8>>>,
    c: FrameView,
    kc: Option<Seq<u8>>,
    rest: Seq<u8>,
    mask: bool,
    max_frame: nat,
    max_message: nat,
)
    requires
        continuations_sendable(us, ku, mask, max_frame, false),
        frame_sendable(c, kc, mask, max_frame),
        c.opcode >= 8,
        buf.len() + us.len() < MAX_DATAFRAMES_IN_ONE_MESSAGE,
        cur + frames_overhead_len(us) < max_message,
    ensures
        receive_rest(
            buf,
            cur,
            frames_written(us, ku) + frame_bytes(c.finished, c.reserved, c.opcode, c.data, kc) + rest,
            mask,
            max_frame,
            max_message,
        ) == (Ok::<Seq<FrameView>, WebSocketError>(seq![c]), buf + us, rest),
    decreases us.len(),
{
    let cb = frame_bytes(c.finished, c.reserved, c.opcode, c.data, kc);
    if us.len() == 0 {
        lemma_frame_read(c, kc, rest, mask, max_frame);
        assert(frames_written(us, ku) + cb + rest =~= cb + rest);
        assert(buf + us =~= buf);
    } else {
        let u = us[0];
        assert(frame_sendable(us[0], ku[0], mask, max_frame));
        assert(us[0].opcode == 0);
        assert(!us[0].finished);
        let us1 = us.drop_first();
        let ku1 = ku.drop_first();
        let tail = frames_written(us1, ku1) + cb + rest;
        let ub = frame_bytes(u.finished, u.reserved, u.opcode, u.data, ku[0]);
        lemma_frame_read(u, ku[0], tail, mask, max_frame);
        assert(frames_written(us, ku) + cb + rest =~= ub + tail);
        assert(continuations_sendable(us1, ku1, mask, max_frame, false)) by {
            assert forall|i: int| 0 <= i < us1.len() implies #[trigger] frame_sendable(us1[i], ku1[i], mask, max_frame) by {
                assert(frame_sendable(us[i + 1], ku[i + 1], mask, max_frame));
            }
            assert forall|i: int| 0 <= i < us1.len() implies #[trigger] us1[i].opcode == 0 by {
                assert(us[i + 1].opcode == 0);
            }
            assert forall|i: int| 0 <= i < us1.len() implies (#[trigger] us1[i].finished <==> (false && i
                == us1.len() - 1)) by {
                assert(!us[i + 1].finished);
            }
        }
        let cur2 = cur + u.data.len() + PER_DATAFRAME_OVERHEAD;
        lemma_rest_then_control(buf.push(u), cur2, us1, ku1, c, kc, rest, mask, max_frame, max_message);
        assert(buf.push(u) + us1 =~= buf + us);
    }
}

/// Continuation frames of which only the last is the last of its message:
/// they are added to the buffered frames and the whole message is handed out.
proof fn lemma_rest_finish(
    buf: Seq<FrameView>,
    cur: int,
    cs: Seq<FrameView>,
    kcs: Seq<Option<Seq<u8>>>,
    tail: Seq<u8>,
    mask: bool,
    max_frame: nat,
    max_message: nat,
)
    requires
        cs.len() >= 1,
        continuations_sendable(cs, kcs, mask, max_frame, true),
        buf.len() + cs.len() - 1 < MAX_DATAFRAMES_IN_ONE_MESSAGE,
        cur + frames_overhead_len(cs.drop_last()) < max_message,
    ensures
        receive_rest(buf, cur, frames_written(cs, kcs) + tail, mask, max_frame, max_message) == (
            Ok::<Seq<FrameView>, WebSocketError>(buf + cs),
            Seq::<FrameView>::empty(),
            tail,
        ),
    decreases cs.len(),
{
    let x = cs[0];
    assert(frame_sendable(cs[0], kcs[0], mask, max_frame));
    assert(cs[0].opcode == 0);
    let cs1 = cs.drop_first();
    let kcs1 = kcs.drop_first();
    let rest = frames_written(cs1, kcs1) + tail;
    let xb = frame_bytes(x.finished, x.reserved, x.opcode, x.data, kcs[0]);
    lemma_frame_read(x, kcs[0], rest, mask, max_frame);
    assert(frames_written(cs, kcs) + tail =~= xb + rest);
    if cs.len() == 1 {
        assert(cs[0].finished);
        assert(frames_written(cs1, kcs1) =~= Seq::<u8>::empty());
        assert(rest =~= tail);
        assert(buf.push(x) =~= buf + cs);
    } else {
        assert(!cs[0].finished);
        assert(continuations_sendable(cs1, kcs1, mask, max_frame, true)) by {
            assert forall|i: int| 0 <= i < cs1.len() implies #[trigger] frame_sendable(cs1[i], kcs1[i], mask, max_frame) by {
                assert(frame_sendable(cs[i + 1], kcs[i + 1], mask, max_frame));
            }
            assert forall|i: int| 0 <= i < cs1.len() implies #[trigger] cs1[i].opcode == 0 by {
                assert(cs[i + 1].opcode == 0);
            }
            assert forall|i: int| 0 <= i < cs1.len() implies (#[trigger] cs1[i].finished <==> (true
                && i == cs1.len() - 1)) by {
                assert(cs[i + 1].finished <==> (i + 1 == cs.len() - 1));
            }
        }
        assert(cs.drop_last()[0] == x);
        assert(cs.drop_last().drop_first() =~= cs1.drop_last());
        let cur2 = cur + x.data.len() + PER_DATAFRAME_OVERHEAD;
        lemma_rest_finish(buf.push(x), cur2, cs1, kcs1, tail, mask, max_frame, max_message);
        assert(buf.push(x) + cs1 =~= buf + cs);
    }
}

/// A control frame that arrives in the middle of a fragmented message is
/// handed out first, by the receiver's first call, and the data frames read
/// so far stay buffered; the next call goes on with them and hands out all
/// the data frames of the message, in order. This holds for a first data
/// frame that is not the last, any number of continuation frames before the
/// control frame, and continuation frames after it of which only the last
/// ends the message, all within the receiver's limits.
#[verifier::rlimit(60)]
#[verifier::spinoff_prover]
pub proof fn lemma_receiver_interleaved(
    d: FrameView,
    kd: Option<Seq<u8>>,
    us: Seq<FrameView>,
    ku: Seq<Option<Seq<u8>>>,
    c: FrameView,
    kc: Option<Seq<u8>>,
    cs: Seq<FrameView>,
    kcs: Seq<Option<Seq<u8>>>,
    tail: Seq<u8>,
    mask: bool,
    max_frame: nat,
    max_message: nat,
)
    requires
        frame_sendable(d, kd, mask, max_frame),
        1 <= d.opcode <= 7,
        !d.finished,
        continuations_sendable(us, ku, mask, max_frame, false),
        frame_sendable(c, kc, mask, max_frame),
        c.opcode >= 8,
        cs.len() >= 1,
        continuations_sendable(cs, kcs, mask, max_frame, true),
        1 + us.len() < MAX_DATAFRAMES_IN_ONE_MESSAGE,
        d.data.len() + PER_DATAFRAME_OVERHEAD + frames_overhead_len(us) < max_message,
        us.len() + cs.len() < MAX_DATAFRAMES_IN_ONE_MESSAGE,
        frames_data_len(seq![d] + us) + frames_overhead_len(cs.drop_last()) < max_message,
    ensures
        ({
            let first = frame_bytes(d.finished, d.reserved, d.opcode, d.data, kd) + frames_written(us, ku)
                + frame_bytes(c.finished, c.reserved, c.opcode, c.data, kc);
            let second = frames_written(cs, kcs);
            &&& receive_message_frames(Seq::empty(), first + second + tail, mask, max_frame, max_message)
                == (Ok::<Seq<FrameView>, WebSocketError>(seq![c]), seq![d] + us, second + tail)
            &&& receive_message_frames(seq![d] + us, second + tail, mask, max_frame, max_message) == (
                Ok::<Seq<FrameView>, WebSocketError>(seq![d] + us + cs),
                Seq::<FrameView>::empty(),
                tail,
            )
        }),
{
    let db = frame_bytes(d.finished, d.reserved, d.opcode, d.data, kd);
    let cb = frame_bytes(c.finished, c.reserved, c.opcode, c.data, kc);
    let second = frames_written(cs, kcs);
    let rest1 = frames_written(us, ku) + cb + (second + tail);
    lemma_frame_read(d, kd, rest1, mask, max_frame);
    assert(db + frames_written(us, ku) + cb + second + tail =~= db + rest1);
    assert(frames_data_len(Seq::<FrameView>::empty()) == 0);
    lemma_rest_then_control(
        seq![d],
        0 + d.data.len() + PER_DATAFRAME_OVERHEAD,
        us,
        ku,
        c,
        kc,
        second + tail,
        mask,
        max_frame,
        max_message,
    );
    assert((seq![d] + us).len() > 0);
    lemma_rest_finish(
        seq![d] + us,
        frames_data_len(seq![d] + us) as int,
        cs,
        kcs,
        tail,
        mask,
        max_frame,
        max_message,
    );
}

} // verus!
