//! The default implementation of data frames.

use crate::result::{DataFrameErrorKind, IoErrorKind, WebSocketError, WebSocketResult};
use crate::ws::util::header::{
    parse_header, read_header, DataFrameFlags, DataFrameHeader, HeaderView, FIN, RSV1, RSV2, RSV3,
};
use crate::ws::dataframe::{flag_bits, frame_bytes, frame_header, DataFrame as DataFrameable};
use crate::ws::util::buffer::extend_bytes;
use crate::ws::util::header::{header_bytes, header_wf, lemma_header_roundtrip};
use crate::ws::util::mask::{lemma_mask_involution, mask_data, masked};
use vstd::prelude::*;
use vstd::slice::{slice_subrange, slice_to_vec};

verus! {

/// Represents a WebSocket data frame opcode
#[derive(Clone, Debug, Copy, PartialEq, Eq, Structural)]
pub enum Opcode {
    /// A continuation data frame
    Continuation,
    /// A UTF-8 text data frame
    Text,
    /// A binary data frame
    Binary,
    /// An undefined non-control data frame
    NonControl1,
    /// An undefined non-control data frame
    NonControl2,
    /// An undefined non-control data frame
    NonControl3,
    /// An undefined non-control data frame
    NonControl4,
    /// An undefined non-control data frame
    NonControl5,
    /// A close data frame
    Close,
    /// A ping data frame
    Ping,
    /// A pong data frame
    Pong,
    /// An undefined control data frame
    Control1,
    /// An undefined control data frame
    Control2,
    /// An undefined control data frame
    Control3,
    /// An undefined control data frame
    Control4,
    /// An undefined control data frame
    Control5,
}

/// The nibble that stands for opcode `o` on the wire.
pub open spec fn opcode_value(o: Opcode) -> u8 {
    match o {
        Opcode::Continuation => 0,
        Opcode::Text => 1,
        Opcode::Binary => 2,
        Opcode::NonControl1 => 3,
        Opcode::NonControl2 => 4,
        Opcode::NonControl3 => 5,
        Opcode::NonControl4 => 6,
        Opcode::NonControl5 => 7,
        Opcode::Close => 8,
        Opcode::Ping => 9,
        Opcode::Pong => 10,
        Opcode::Control1 => 11,
        Opcode::Control2 => 12,
        Opcode::Control3 => 13,
        Opcode::Control4 => 14,
        Opcode::Control5 => 15,
    }
}

impl Opcode {
    /// Attempts to form an Opcode from a nibble.
    ///
    /// Returns the Opcode, or None if the opcode is out of range.
    pub fn new(op: u8) -> (r: Option<Opcode>)
        ensures
            r is Some <==> op <= 15,
            r matches Some(o) ==> opcode_value(o) == op,
    {
        Some(
            match op {
                0 => Opcode::Continuation,
                1 => Opcode::Text,
                2 => Opcode::Binary,
                3 => Opcode::NonControl1,
                4 => Opcode::NonControl2,
                5 => Opcode::NonControl3,
                6 => Opcode::NonControl4,
                7 => Opcode::NonControl5,
                8 => Opcode::Close,
                9 => Opcode::Ping,
                10 => Opcode::Pong,
                11 => Opcode::Control1,
                12 => Opcode::Control2,
                13 => Opcode::Control3,
                14 => Opcode::Control4,
                15 => Opcode::Control5,
                _ => return None,
            },
        )
    }

    /// The nibble of this opcode.
    pub fn to_u8(&self) -> (v: u8)
        ensures
            v == opcode_value(*self),
            v <= 15,
    {
        match self {
            Opcode::Continuation => 0,
            Opcode::Text => 1,
            Opcode::Binary => 2,
            Opcode::NonControl1 => 3,
            Opcode::NonControl2 => 4,
            Opcode::NonControl3 => 5,
            Opcode::NonControl4 => 6,
            Opcode::NonControl5 => 7,
            Opcode::Close => 8,
            Opcode::Ping => 9,
            Opcode::Pong => 10,
            Opcode::Control1 => 11,
            Opcode::Control2 => 12,
            Opcode::Control3 => 13,
            Opcode::Control4 => 14,
            Opcode::Control5 => 15,
        }
    }
}

/// Every nibble names exactly one opcode.
pub proof fn lemma_opcode_value_injective(a: Opcode, b: Opcode)
    ensures
        opcode_value(a) == opcode_value(b) ==> a == b,
        opcode_value(a) <= 15,
{
}

/// The mathematical content of a data frame.
pub struct FrameView {
    pub finished: bool,
    pub reserved: Seq<bool>,
    pub opcode: u8,
    pub data: Seq<u8>,
}

/// Represents a WebSocket data frame.
///
/// The data held in a DataFrame is never masked.
/// Masking/unmasking is done when sending and receiving the data frame,
#[derive(Debug, Clone, PartialEq, Eq)]
pub struct DataFrame {
    /// Whether or no this constitutes the end of a message
    pub finished: bool,
    /// The reserved portion of the data frame (RFC6455 5.2)
    pub reserved: [bool; 3],
    /// The opcode associated with this data frame
    pub opcode: Opcode,
    /// The payload associated with this data frame
    pub data: Vec<u8>,
}

impl View for DataFrame {
    type V = FrameView;

    open spec fn view(&self) -> FrameView {
        FrameView {
            finished: self.finished,
            reserved: self.reserved@,
            opcode: opcode_value(self.opcode),
            data: self.data@,
        }
    }
}

/// The frame a header and its (still masked) body stand for, or the error
/// with which they are refused.
pub open spec fn frame_of(h: HeaderView, body: Seq<u8>, should_be_masked: bool) -> Result<
    FrameView,
    WebSocketError,
> {
    match h.mask {
        Some(k) => if !should_be_masked {
            Err(WebSocketError::DataFrameError(DataFrameErrorKind::ExpectedUnmasked))
        } else {
            Ok(
                FrameView {
                    finished: h.flags & FIN == FIN,
                    reserved: seq![h.flags & RSV1 == RSV1, h.flags & RSV2 == RSV2, h.flags & RSV3 == RSV3],
                    opcode: h.opcode,
                    data: masked(k, body),
                },
            )
        },
        None => if should_be_masked {
            Err(WebSocketError::DataFrameError(DataFrameErrorKind::ExpectedMasked))
        } else {
            Ok(
                FrameView {
                    finished: h.flags & FIN == FIN,
                    reserved: seq![h.flags & RSV1 == RSV1, h.flags & RSV2 == RSV2, h.flags & RSV3 == RSV3],
                    opcode: h.opcode,
                    data: body,
                },
            )
        },
    }
}

/// The frame at the start of `s`, with the number of bytes it takes; frames
/// whose payload declares more than `limit` bytes (when a limit is given) are refused.
pub open spec fn parse_frame(s: Seq<u8>, should_be_masked: bool, limit: Option<nat>) -> Result<
    (FrameView, int),
    WebSocketError,
> {
    match parse_header(s) {
        Err(e) => Err(e),
        Ok((h, pos)) => if limit matches Some(l) && h.len > l {
            Err(WebSocketError::IoError(IoErrorKind::InvalidData))
        } else if s.len() - pos < h.len {
            Err(WebSocketError::NoDataAvailable)
        } else {
            match frame_of(h, s.subrange(pos, pos + h.len), should_be_masked) {
                Err(e) => Err(e),
                Ok(f) => Ok((f, pos + h.len)),
            }
        },
    }
}

impl DataFrame {
    /// Creates a new DataFrame.
    pub fn new(finished: bool, opcode: Opcode, data: Vec<u8>) -> (df: DataFrame)
        ensures
            df.finished == finished,
            df.reserved@ == seq![false, false, false],
            df.opcode == opcode,
            df.data@ == data@,
    {
        let df = DataFrame { finished, reserved: [false, false, false], opcode, data };
        assert(df.reserved@ =~= seq![false, false, false]);
        df
    }

    /// Take the body and header of a dataframe and combine it into a single
    /// Dataframe struct. A websocket message can be made up of many individual
    /// dataframes, use the methods from the Message or OwnedMessage structs to
    /// take many of these and create a websocket message.
    pub fn read_dataframe_body(header: DataFrameHeader, body: Vec<u8>, should_be_masked: bool) -> (r:
        WebSocketResult<Self>)
        requires
            header.opcode <= 15,
        ensures
            match r {
                Ok(df) => frame_of(header@, body@, should_be_masked) == Ok::<
                    FrameView,
                    WebSocketError,
                >(df@),
                Err(e) => frame_of(header@, body@, should_be_masked) == Err::<
                    FrameView,
                    WebSocketError,
                >(e),
            },
    {
        let finished = header.flags.contains(DataFrameFlags::from_bit(FIN));
        let reserved = [
            header.flags.contains(DataFrameFlags::from_bit(RSV1)),
            header.flags.contains(DataFrameFlags::from_bit(RSV2)),
            header.flags.contains(DataFrameFlags::from_bit(RSV3)),
        ];
        let opcode = match Opcode::new(header.opcode) {
            Some(o) => o,
            None => {
                return Err(WebSocketError::DataFrameError(DataFrameErrorKind::InvalidOpcode));
            },
        };
        let data = match header.mask {
            Some(mask) => {
                if !should_be_masked {
                    return Err(WebSocketError::DataFrameError(DataFrameErrorKind::ExpectedUnmasked));
                }
                mask_data(mask, body.as_slice())
            },
            None => {
                if should_be_masked {
                    return Err(WebSocketError::DataFrameError(DataFrameErrorKind::ExpectedMasked));
                }
                body
            },
        };
        let df = DataFrame { finished, reserved, opcode, data };
        assert(df.reserved@ =~= seq![
            header.flags.bits & RSV1 == RSV1,
            header.flags.bits & RSV2 == RSV2,
            header.flags.bits & RSV3 == RSV3,
        ]);
        Ok(df)
    }

    /// Reads a DataFrame from the start of `bytes`, returning it with the
    /// number of bytes it takes.
    pub fn read_dataframe(bytes: &[u8], should_be_masked: bool) -> (r: WebSocketResult<(Self, usize)>)
        ensures
            match r {
                Ok((df, n)) => parse_frame(bytes@, should_be_masked, None) == Ok::<
                    (FrameView, int),
                    WebSocketError,
                >((df@, n as int)),
                Err(e) => parse_frame(bytes@, should_be_masked, None) == Err::<
                    (FrameView, int),
                    WebSocketError,
                >(e),
            },
    {
        Self::read_frame(bytes, should_be_masked, None)
    }

    /// Reads a DataFrame from the start of `bytes`, or errors out if the header
    /// declares a payload above `limit`.
    pub fn read_dataframe_with_limit(bytes: &[u8], should_be_masked: bool, limit: usize) -> (r:
        WebSocketResult<(Self, usize)>)
        ensures
            match r {
                Ok((df, n)) => parse_frame(bytes@, should_be_masked, Some(limit as nat)) == Ok::<
                    (FrameView, int),
                    WebSocketError,
                >((df@, n as int)),
                Err(e) => parse_frame(bytes@, should_be_masked, Some(limit as nat)) == Err::<
                    (FrameView, int),
                    WebSocketError,
                >(e),
            },
    {
        Self::read_frame(bytes, should_be_masked, Some(limit))
    }

    fn read_frame(bytes: &[u8], should_be_masked: bool, limit: Option<usize>) -> (r: WebSocketResult<
        (Self, usize),
    >)
        ensures
            ({
                let l = match limit {
                    Some(l) => Some(l as nat),
                    None => None,
                };
                match r {
                    Ok((df, n)) => parse_frame(bytes@, should_be_masked, l) == Ok::<
                        (FrameView, int),
                        WebSocketError,
                    >((df@, n as int)),
                    Err(e) => parse_frame(bytes@, should_be_masked, l) == Err::<
                        (FrameView, int),
                        WebSocketError,
                    >(e),
                }
            }),
    {
        let (header, pos) = match read_header(bytes) {
            Ok(hp) => hp,
            Err(e) => {
                return Err(e);
            },
        };
        if let Some(l) = limit {
            if header.len > l as u64 {
                return Err(WebSocketError::IoError(IoErrorKind::InvalidData));
            }
        }
        if ((bytes.len() - pos) as u64) < header.len {
            return Err(WebSocketError::NoDataAvailable);
        }
        let end = pos + header.len as usize;
        let body = slice_to_vec(slice_subrange(bytes, pos, end));
        proof {
            crate::ws::util::header::lemma_header_canonical(bytes@);
        }
        match DataFrame::read_dataframe_body(header, body, should_be_masked) {
            Ok(df) => Ok((df, end)),
            Err(e) => Err(e),
        }
    }
}

impl DataFrameable for DataFrame {
    open spec fn last_view(&self) -> bool {
        self.finished
    }

    open spec fn opcode_view(&self) -> u8 {
        opcode_value(self.opcode)
    }

    open spec fn reserved_view(&self) -> Seq<bool> {
        self.reserved@
    }

    open spec fn payload_view(&self) -> Seq<u8> {
        self.data@
    }

    fn is_last(&self) -> (b: bool) {
        self.finished
    }

    fn opcode(&self) -> (o: u8) {
        self.opcode.to_u8()
    }

    fn reserved(&self) -> (r: [bool; 3]) {
        self.reserved
    }

    fn size(&self) -> (n: usize) {
        self.data.len()
    }

    fn write_payload(&self, out: &mut Vec<u8>) {
        extend_bytes(out, self.data.as_slice());
    }

    fn take_payload(self) -> (v: Vec<u8>) {
        self.data
    }
}

/// A frame that can be written and read back: a short, final payload for control frames.
pub open spec fn frame_wf(f: FrameView) -> bool {
    &&& f.reserved.len() == 3
    &&& f.opcode <= 15
    &&& f.data.len() <= u64::MAX
    &&& f.opcode >= 8 ==> f.data.len() < 126 && f.finished
}

/// Reading a written frame gives back that frame, whatever follows it: masked
/// frames are read where masked frames are expected, unmasked ones elsewhere.
pub proof fn lemma_frame_roundtrip(f: FrameView, key: Option<Seq<u8>>, rest: Seq<u8>)
    requires
        frame_wf(f),
        key matches Some(k) ==> k.len() == 4,
    ensures
        parse_frame(
            frame_bytes(f.finished, f.reserved, f.opcode, f.data, key) + rest,
            key is Some,
            None,
        ) == Ok::<(FrameView, int), WebSocketError>(
            (f, frame_bytes(f.finished, f.reserved, f.opcode, f.data, key).len() as int),
        ),
{
    let h = frame_header(f.finished, f.reserved, f.opcode, f.data.len(), key);
    let body = match key {
        Some(k) => masked(k, f.data),
        None => f.data,
    };
    let bits = flag_bits(f.finished, f.reserved);
    let (l, a, b, c) = (f.finished, f.reserved[0], f.reserved[1], f.reserved[2]);
    assert({
        let x: u8 = (if l {
            0x80u8
        } else {
            0u8
        }) | (if a {
            0x40u8
        } else {
            0u8
        }) | (if b {
            0x20u8
        } else {
            0u8
        }) | (if c {
            0x10u8
        } else {
            0u8
        });
        &&& x & 0x0Fu8 == 0
        &&& (x & 0x80u8 == 0x80u8) == l
        &&& (x & 0x40u8 == 0x40u8) == a
        &&& (x & 0x20u8 == 0x20u8) == b
        &&& (x & 0x10u8 == 0x10u8) == c
    }) by (bit_vector);
    assert(header_wf(h));
    let s = frame_bytes(f.finished, f.reserved, f.opcode, f.data, key) + rest;
    assert(s =~= header_bytes(h) + (body + rest));
    lemma_header_roundtrip(h, body + rest);
    let pos = header_bytes(h).len() as int;
    assert(s.subrange(pos, pos + h.len) =~= body);
    match key {
        Some(k) => {
            lemma_mask_involution(k, f.data);
        },
        None => {},
    }
    assert(f.reserved =~= seq![bits & RSV1 == RSV1, bits & RSV2 == RSV2, bits & RSV3 == RSV3]);
}

} // verus!
