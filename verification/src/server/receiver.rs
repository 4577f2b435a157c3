//! A receiver that reads masked frames from its own source of bytes, and
//! hands out control frames that interrupt a message after the message.

use crate::dataframe::{DataFrame, FrameView};
use crate::message::{message_from_frames, Message, MessageView};
use crate::result::{ProtocolErrorKind, WebSocketError, WebSocketResult};
use crate::ws::dataframe::frames_summary;
use crate::ws::message::Message as MessageTrait;
use crate::ws::util::dataframe::{parse_frame_prefix, read_dataframe};
use vstd::prelude::*;
use vstd::slice::{slice_subrange, slice_to_vec};

verus! {

/// A Receiver that wraps a reader and provides a default implementation using
/// DataFrames and Messages.
pub struct Receiver<R> {
    inner: R,
    buffer: Vec<DataFrame>,
}

/// The next frame: the last one held back, if any, else the frame read from
/// `s`; with the frames held back and the bytes left.
pub open spec fn next_frame(buf: Seq<FrameView>, s: Seq<u8>) -> (
    Result<FrameView, WebSocketError>,
    Seq<FrameView>,
    Seq<u8>,
) {
    if buf.len() > 0 {
        (Ok(buf.last()), buf.drop_last(), s)
    } else {
        match parse_frame_prefix(s, true) {
            Ok((f, n)) => (Ok(f), buf, s.skip(n)),
            Err(e) => (Err(e), buf, s),
        }
    }
}

/// The frames of the rest of a message, when its frames `frames` are read
/// and the control frames `deferred` were met meanwhile: continuation frames
/// join the message and control frames are held back, until a frame with
/// the FIN bit; any other frame is an error. Gives the message's frames and
/// the control frames met, with the frames held back and the bytes left.
pub open spec fn collect_frames(
    buf: Seq<FrameView>,
    s: Seq<u8>,
    frames: Seq<FrameView>,
    deferred: Seq<FrameView>,
) -> (Result<(Seq<FrameView>, Seq<FrameView>), WebSocketError>, Seq<FrameView>, Seq<u8>)
    decreases s.len(), buf.len(),
{
    let (r, buf2, s2) = next_frame(buf, s);
    match r {
        Err(e) => (Err(e), buf2, s2),
        Ok(f) => {
            let progress = (buf.len() > 0 && s2 == s && buf2.len() < buf.len()) || (buf.len() == 0
                && s2.len() < s.len());
            if f.opcode == 0 {
                if f.finished || !progress {
                    (Ok((frames.push(f), deferred)), buf2, s2)
                } else {
                    collect_frames(buf2, s2, frames.push(f), deferred)
                }
            } else if f.opcode >= 8 {
                if f.finished || !progress {
                    (Ok((frames, deferred.push(f))), buf2, s2)
                } else {
                    collect_frames(buf2, s2, frames, deferred.push(f))
                }
            } else {
                (
                    Err(WebSocketError::ProtocolError(ProtocolErrorKind::UnexpectedDataFrameOpcode)),
                    buf2,
                    s2,
                )
            }
        },
    }
}

impl<R> Receiver<R> {
    /// The control frames held back, the next one last.
    pub closed spec fn held(&self) -> Seq<FrameView> {
        self.buffer@.map_values(|f: DataFrame| f@)
    }

    /// The reader.
    pub closed spec fn reader(&self) -> R {
        self.inner
    }

    /// Create a new Receiver using the specified Reader.
    pub fn new(reader: R) -> (r: Receiver<R>)
        ensures
            r.reader() == reader,
            r.held() == Seq::<FrameView>::empty(),
    {
        let r = Receiver { inner: reader, buffer: Vec::new() };
        assert(r.held() =~= Seq::<FrameView>::empty());
        r
    }

    /// Returns a reference to the underlying Reader.
    pub fn get_ref(&self) -> (r: &R)
        ensures
            *r == self.reader(),
    {
        &self.inner
    }

    /// Returns a mutable reference to the underlying Reader.
    pub fn get_mut(&mut self) -> (r: &mut R)
        ensures
            *r == old(self).reader(),
            final(self).reader() == *final(r),
            final(self).held() == old(self).held(),
    {
        &mut self.inner
    }
}

impl Receiver<Vec<u8>> {
    /// The next data frame: the last control frame held back, if any, else
    /// a masked frame read from the bytes, consuming them.
    pub fn recv_dataframe(&mut self) -> (r: WebSocketResult<DataFrame>)
        ensures
            ({
                let (res, buf, rest) = next_frame(old(self).held(), old(self).reader()@);
                &&& final(self).held() == buf
                &&& final(self).reader()@ == rest
                &&& match r {
                    Ok(f) => res == Ok::<FrameView, WebSocketError>(f@),
                    Err(e) => res == Err::<FrameView, WebSocketError>(e),
                }
            }),
    {
        match self.buffer.pop() {
            Some(dataframe) => {
                assert(self.held() =~= old(self).held().drop_last());
                Ok(dataframe)
            },
            None => {
                assert(old(self).held() =~= Seq::<FrameView>::empty());
                let (df, n) = read_dataframe(self.inner.as_slice(), true)?;
                proof {
                    crate::ws::util::header::lemma_header_canonical(self.inner@);
                }
                let rest = slice_to_vec(slice_subrange(self.inner.as_slice(), n, self.inner.len()));
                assert(rest@ =~= self.inner@.skip(n as int));
                self.inner = rest;
                Ok(df)
            },
        }
    }
}

/// The message received when the frames `buf` are held back and the bytes
/// `s` are left: the message formed from its frames or the error of reading
/// or forming it, with the frames held back afterwards (the control frames
/// met are added to them) and the bytes left.
pub open spec fn receive_server_message(buf: Seq<FrameView>, s: Seq<u8>) -> (
    Result<MessageView, WebSocketError>,
    Seq<FrameView>,
    Seq<u8>,
) {
    let (r, buf1, s1) = next_frame(buf, s);
    match r {
        Err(e) => (Err(e), buf1, s1),
        Ok(first) => {
            let (c, buf2, s2) = if first.finished {
                (
                    Ok::<(Seq<FrameView>, Seq<FrameView>), WebSocketError>(
                        (seq![first], Seq::empty()),
                    ),
                    buf1,
                    s1,
                )
            } else {
                collect_frames(buf1, s1, seq![first], Seq::empty())
            };
            match c {
                Err(e) => (Err(e), buf2, s2),
                Ok((frames, deferred)) => (message_from_frames(frames), buf2 + deferred, s2),
            }
        },
    }
}

/// The message, frames held back and bytes left that the outcome of
/// collecting the frames of a message comes to.
pub open spec fn finish_collect(
    c: (Result<(Seq<FrameView>, Seq<FrameView>), WebSocketError>, Seq<FrameView>, Seq<u8>),
) -> (Result<MessageView, WebSocketError>, Seq<FrameView>, Seq<u8>) {
    match c.0 {
        Err(e) => (Err(e), c.1, c.2),
        Ok((frames, deferred)) => (message_from_frames(frames), c.1 + deferred, c.2),
    }
}

/// The views of a list of frames.
pub open spec fn frame_views(v: Seq<DataFrame>) -> Seq<FrameView> {
    v.map_values(|f: DataFrame| f@)
}

/// The views of frames with one more frame are the views with its view added.
proof fn lemma_frame_views_push(v: Seq<DataFrame>, f: DataFrame)
    ensures
        frame_views(v.push(f)) =~= frame_views(v).push(f@),
{
    assert forall|j: int| 0 <= j < v.len() implies #[trigger] frame_views(v.push(f))[j]
        == frame_views(v)[j] by {
        assert(v.push(f)[j] == v[j]);
    }
}

impl Receiver<Vec<u8>> {
    /// Receives one message: its first frame, then continuation frames up to
    /// a frame with the FIN bit; control frames met meanwhile are held back
    /// and handed out by later calls.
    pub fn recv_message(&mut self) -> (r: WebSocketResult<Message>)
        ensures
            ({
                let (res, buf, rest) = receive_server_message(old(self).held(), old(self).reader()@);
                &&& final(self).held() == buf
                &&& final(self).reader()@ == rest
                &&& match r {
                    Ok(m) => res == Ok::<MessageView, WebSocketError>(m@),
                    Err(e) => res == Err::<MessageView, WebSocketError>(e),
                }
            }),
    {
        let first = self.recv_dataframe()?;
        let mut finished = first.finished;
        let mut deferred: Vec<DataFrame> = Vec::new();
        let mut frames: Vec<DataFrame> = Vec::new();
        let ghost fv = first@;
        frames.push(first);
        assert(frame_views(frames@) =~= seq![fv]);
        assert(frame_views(deferred@) =~= Seq::<FrameView>::empty());
        let ghost goal = if fv.finished {
            (
                Ok::<(Seq<FrameView>, Seq<FrameView>), WebSocketError>((seq![fv], Seq::empty())),
                self.held(),
                self.inner@,
            )
        } else {
            collect_frames(self.held(), self.inner@, seq![fv], Seq::empty())
        };
        assert(receive_server_message(old(self).held(), old(self).reader()@) == finish_collect(goal));
        while !finished
            invariant
                receive_server_message(old(self).held(), old(self).reader()@) == finish_collect(goal),
                finished ==> goal == (
                    Ok::<(Seq<FrameView>, Seq<FrameView>), WebSocketError>(
                        (frame_views(frames@), frame_views(deferred@)),
                    ),
                    self.held(),
                    self.inner@,
                ),
                !finished ==> goal == collect_frames(
                    self.held(),
                    self.inner@,
                    frame_views(frames@),
                    frame_views(deferred@),
                ),
            decreases self.inner@.len(), self.held().len(), if finished {
                0int
            } else {
                1int
            },
        {
            let ghost buf0 = self.held();
            let ghost s0 = self.inner@;
            let next = self.recv_dataframe()?;
            proof {
                if buf0.len() == 0 {
                    crate::ws::util::header::lemma_header_canonical(s0);
                }
            }
            finished = next.finished;
            let op = next.opcode.to_u8();
            let ghost nv = next@;
            if op == 0 {
                let ghost before = frames@;
                frames.push(next);
                proof {
                    lemma_frame_views_push(before, next);
                }
            } else if op >= 8 {
                let ghost before = deferred@;
                deferred.push(next);
                proof {
                    lemma_frame_views_push(before, next);
                }
            } else {
                return Err(WebSocketError::ProtocolError(ProtocolErrorKind::UnexpectedDataFrameOpcode));
            }
        }
        let ghost held_before = self.held();
        let ghost deferred_views = frame_views(deferred@);
        self.buffer.append(&mut deferred);
        assert(self.held() =~= held_before + deferred_views);
        assert(frames_summary(frames@) =~= frame_views(frames@));
        <Message as MessageTrait>::from_dataframes(frames)
    }
}

} // verus!
