//! Data frames as they stand on the wire: with their masking key, their
//! length field and their (still masked) payload.

use crate::result::{IoErrorKind, WebSocketError, WebSocketResult};
use crate::ws::util::buffer::extend_bytes;
use crate::ws::util::byte_order::{
    be16_bytes, be16_value, be64_bytes, be64_value, lemma_be16_roundtrip, lemma_be64_roundtrip,
    read_be_u16, read_be_u64, write_be_u16, write_be_u64,
};
use vstd::prelude::*;
use vstd::slice::{slice_subrange, slice_to_vec};

verus! {

/// The opcode of a wire data frame.
#[derive(Debug, Clone, Copy, PartialEq, Eq, Structural)]
pub enum WebSocketOpcode {
    /// A continuation data frame
    Continuation,
    /// A UTF-8 text data frame
    Text,
    /// A binary data frame
    Binary,
    /// An undefined non-control data frame
    NonControl1,
    /// An undefined non-control data frame
    NonControl2,
    /// An undefined non-control data frame
    NonControl3,
    /// An undefined non-control data frame
    NonControl4,
    /// An undefined non-control data frame
    NonControl5,
    /// A close data frame
    Close,
    /// A ping data frame
    Ping,
    /// A pong data frame
    Pong,
    /// An undefined control data frame
    Control1,
    /// An undefined control data frame
    Control2,
    /// An undefined control data frame
    Control3,
    /// An undefined control data frame
    Control4,
    /// An undefined control data frame
    Control5,
}

/// The nibble that stands for opcode `o` on the wire.
pub open spec fn ws_opcode_value(o: WebSocketOpcode) -> u8 {
    match o {
        WebSocketOpcode::Continuation => 0,
        WebSocketOpcode::Text => 1,
        WebSocketOpcode::Binary => 2,
        WebSocketOpcode::NonControl1 => 3,
        WebSocketOpcode::NonControl2 => 4,
        WebSocketOpcode::NonControl3 => 5,
        WebSocketOpcode::NonControl4 => 6,
        WebSocketOpcode::NonControl5 => 7,
        WebSocketOpcode::Close => 8,
        WebSocketOpcode::Ping => 9,
        WebSocketOpcode::Pong => 10,
        WebSocketOpcode::Control1 => 11,
        WebSocketOpcode::Control2 => 12,
        WebSocketOpcode::Control3 => 13,
        WebSocketOpcode::Control4 => 14,
        WebSocketOpcode::Control5 => 15,
    }
}

impl WebSocketOpcode {
    /// The opcode that the low nibble of `byte` stands for.
    pub fn from_nibble(byte: u8) -> (o: WebSocketOpcode)
        ensures
            ws_opcode_value(o) == byte & 0x0Fu8,
    {
        let nibble = byte & 0x0F;
        assert(nibble <= 15) by (bit_vector)
            requires
                nibble == byte & 0x0Fu8,
        ;
        match nibble {
            0 => WebSocketOpcode::Continuation,
            1 => WebSocketOpcode::Text,
            2 => WebSocketOpcode::Binary,
            3 => WebSocketOpcode::NonControl1,
            4 => WebSocketOpcode::NonControl2,
            5 => WebSocketOpcode::NonControl3,
            6 => WebSocketOpcode::NonControl4,
            7 => WebSocketOpcode::NonControl5,
            8 => WebSocketOpcode::Close,
            9 => WebSocketOpcode::Ping,
            10 => WebSocketOpcode::Pong,
            11 => WebSocketOpcode::Control1,
            12 => WebSocketOpcode::Control2,
            13 => WebSocketOpcode::Control3,
            14 => WebSocketOpcode::Control4,
            _ => WebSocketOpcode::Control5,
        }
    }

    /// The nibble of this opcode.
    pub fn to_nibble(&self) -> (v: u8)
        ensures
            v == ws_opcode_value(*self),
            v <= 15,
    {
        match self {
            WebSocketOpcode::Continuation => 0,
            WebSocketOpcode::Text => 1,
            WebSocketOpcode::Binary => 2,
            WebSocketOpcode::NonControl1 => 3,
            WebSocketOpcode::NonControl2 => 4,
            WebSocketOpcode::NonControl3 => 5,
            WebSocketOpcode::NonControl4 => 6,
            WebSocketOpcode::NonControl5 => 7,
            WebSocketOpcode::Close => 8,
            WebSocketOpcode::Ping => 9,
            WebSocketOpcode::Pong => 10,
            WebSocketOpcode::Control1 => 11,
            WebSocketOpcode::Control2 => 12,
            WebSocketOpcode::Control3 => 13,
            WebSocketOpcode::Control4 => 14,
            WebSocketOpcode::Control5 => 15,
        }
    }
}

/// The payload length of a wire data frame, in the form it is written.
#[derive(Debug, Clone, Copy, PartialEq, Eq, Structural)]
pub enum WebSocketDataFrameLength {
    /// A length written in the second header byte (at most 125).
    Tiny(u8),
    /// A length written in two extra bytes.
    Short(u16),
    /// A length written in eight extra bytes.
    Long(u64),
}

/// The number a length field stands for.
pub open spec fn length_value(l: WebSocketDataFrameLength) -> nat {
    match l {
        WebSocketDataFrameLength::Tiny(n) => n as nat,
        WebSocketDataFrameLength::Short(n) => n as nat,
        WebSocketDataFrameLength::Long(n) => n as nat,
    }
}

impl WebSocketDataFrameLength {
    /// The length as a number.
    pub fn unwrap(self) -> (n: usize)
        ensures
            n == length_value(self) as usize,
    {
        match self {
            WebSocketDataFrameLength::Tiny(length) => length as usize,
            WebSocketDataFrameLength::Short(length) => length as usize,
            WebSocketDataFrameLength::Long(length) => length as usize,
        }
    }

    /// The length field in its shortest form.
    pub fn new(length: usize) -> (l: WebSocketDataFrameLength)
        ensures
            length_value(l) == length,
            length <= 125 ==> l is Tiny,
            125 < length <= 65535 ==> l is Short,
            65535 < length ==> l is Long,
    {
        if length <= 125 {
            WebSocketDataFrameLength::Tiny(length as u8)
        } else if length <= 65535 {
            WebSocketDataFrameLength::Short(length as u16)
        } else {
            WebSocketDataFrameLength::Long(length as u64)
        }
    }
}

/// The mathematical content of a wire data frame.
pub struct WireFrameView {
    pub finished: bool,
    pub reserved: Seq<bool>,
    pub opcode: u8,
    pub mask: Option<Seq<u8>>,
    pub length: WebSocketDataFrameLength,
    pub data: Seq<u8>,
}

/// A data frame as it stands on the wire. When a masking key is given, the
/// data is the masked payload.
#[derive(Debug, Clone, PartialEq, Eq)]
pub struct WebSocketDataFrame {
    /// Whether this frame ends its message.
    pub finished: bool,
    /// The three reserved bits.
    pub reserved: [bool; 3],
    /// The opcode.
    pub opcode: WebSocketOpcode,
    /// The masking key, if any.
    pub mask: Option<[u8; 4]>,
    /// The length field.
    pub length: WebSocketDataFrameLength,
    /// The (masked, when a key is given) payload.
    pub data: Vec<u8>,
}

impl View for WebSocketDataFrame {
    type V = WireFrameView;

    open spec fn view(&self) -> WireFrameView {
        WireFrameView {
            finished: self.finished,
            reserved: self.reserved@,
            opcode: ws_opcode_value(self.opcode),
            mask: match self.mask {
                Some(k) => Some(k@),
                None => None,
            },
            length: self.length,
            data: self.data@,
        }
    }
}

impl WebSocketDataFrame {
    /// An unmasked frame of `data`, with its length field in the shortest form.
    pub fn new(finished: bool, opcode: WebSocketOpcode, data: Vec<u8>) -> (f: WebSocketDataFrame)
        ensures
            f.finished == finished,
            f.reserved@ == seq![false, false, false],
            f.opcode == opcode,
            f.mask is None,
            f.length == wire_length(data@.len()),
            f.data@ == data@,
    {
        let length = WebSocketDataFrameLength::new(data.len());
        let f = WebSocketDataFrame {
            finished,
            reserved: [false, false, false],
            opcode,
            mask: None,
            length,
            data,
        };
        assert(f.reserved@ =~= seq![false, false, false]);
        f
    }
}

/// The length field, in the shortest form, of a payload of `n` bytes.
pub open spec fn wire_length(n: nat) -> WebSocketDataFrameLength {
    if n <= 125 {
        WebSocketDataFrameLength::Tiny(n as u8)
    } else if n <= 65535 {
        WebSocketDataFrameLength::Short(n as u16)
    } else {
        WebSocketDataFrameLength::Long(n as u64)
    }
}

/// The first header byte of a frame.
pub open spec fn wire_byte0(f: WireFrameView) -> u8 {
    (if f.finished {
        0x80u8
    } else {
        0u8
    }) | (if f.reserved[0] {
        0x40u8
    } else {
        0u8
    }) | (if f.reserved[1] {
        0x20u8
    } else {
        0u8
    }) | (if f.reserved[2] {
        0x10u8
    } else {
        0u8
    }) | f.opcode
}

/// The second header byte of a frame.
pub open spec fn wire_byte1(f: WireFrameView) -> u8 {
    (if f.mask is Some {
        0x80u8
    } else {
        0u8
    }) | match f.length {
        WebSocketDataFrameLength::Tiny(n) => n,
        WebSocketDataFrameLength::Short(_) => 0x7Eu8,
        WebSocketDataFrameLength::Long(_) => 0x7Fu8,
    }
}

/// The extended length bytes of a frame.
pub open spec fn wire_ext_len(l: WebSocketDataFrameLength) -> Seq<u8> {
    match l {
        WebSocketDataFrameLength::Tiny(_) => Seq::empty(),
        WebSocketDataFrameLength::Short(n) => be16_bytes(n),
        WebSocketDataFrameLength::Long(n) => be64_bytes(n),
    }
}

/// The bytes a frame is written as: two header bytes, the extended length,
/// the masking key and the data.
pub open spec fn wire_frame_bytes(f: WireFrameView) -> Seq<u8> {
    seq![wire_byte0(f), wire_byte1(f)] + wire_ext_len(f.length) + match f.mask {
        Some(k) => k,
        None => Seq::empty(),
    } + f.data
}

/// The error of reading past the end of the input.
pub open spec fn eof() -> WebSocketError {
    WebSocketError::IoError(IoErrorKind::UnexpectedEof)
}

/// The length field at the start of `s` (whose second byte has the length
/// code `code`), with the number of bytes read so far.
pub open spec fn parse_wire_length(s: Seq<u8>, code: u8) -> Result<
    (WebSocketDataFrameLength, int),
    WebSocketError,
> {
    if code == 126 {
        if s.len() < 4 {
            Err(eof())
        } else {
            Ok((WebSocketDataFrameLength::Short(be16_value(s.subrange(2, 4))), 4))
        }
    } else if code == 127 {
        if s.len() < 10 {
            Err(eof())
        } else {
            Ok((WebSocketDataFrameLength::Long(be64_value(s.subrange(2, 10))), 10))
        }
    } else {
        Ok((WebSocketDataFrameLength::Tiny(code), 2))
    }
}

/// The frame at the start of `s`, with the number of bytes it takes, or the
/// error with which reading it fails: the input ends too early.
pub open spec fn parse_wire_frame(s: Seq<u8>) -> Result<(WireFrameView, int), WebSocketError> {
    if s.len() < 2 {
        Err(eof())
    } else {
        let b0 = s[0];
        let b1 = s[1];
        match parse_wire_length(s, b1 & 0x7Fu8) {
            Err(e) => Err(e),
            Ok((length, pos)) => {
                let masked = (b1 >> 7u8) & 0x01u8 == 0x01u8;
                let key_end = if masked {
                    pos + 4
                } else {
                    pos
                };
                if s.len() < key_end || s.len() - key_end < length_value(length) {
                    Err(eof())
                } else {
                    let end = key_end + length_value(length);
                    Ok(
                        (
                            WireFrameView {
                                finished: (b0 >> 7u8) & 0x01u8 == 0x01u8,
                                reserved: seq![
                                    (b0 >> 6u8) & 0x01u8 == 0x01u8,
                                    (b0 >> 5u8) & 0x01u8 == 0x01u8,
                                    (b0 >> 4u8) & 0x01u8 == 0x01u8,
                                ],
                                opcode: b0 & 0x0Fu8,
                                mask: if masked {
                                    Some(s.subrange(pos, pos + 4))
                                } else {
                                    None
                                },
                                length,
                                data: s.subrange(key_end, end),
                            },
                            end,
                        ),
                    )
                }
            },
        }
    }
}

/// Reading wire data frames from a source of bytes.
pub trait ReadWebSocketDataFrame {
    /// Reads one data frame.
    fn read_websocket_dataframe(&mut self) -> WebSocketResult<WebSocketDataFrame>;
}

/// Writing wire data frames to a sink of bytes.
pub trait WriteWebSocketDataFrame {
    /// Writes one data frame.
    fn write_websocket_dataframe(&mut self, dataframe: WebSocketDataFrame) -> WebSocketResult<()>;
}

/// The bytes of `v` from index `start` on, as a new vector.
fn bytes_after(v: &Vec<u8>, start: usize) -> (out: Vec<u8>)
    requires
        start <= v.len(),
    ensures
        out@ == v@.skip(start as int),
{
    let out = slice_to_vec(slice_subrange(v.as_slice(), start, v.len()));
    assert(out@ =~= v@.skip(start as int));
    out
}

impl ReadWebSocketDataFrame for Vec<u8> {
    /// Reads the frame at the start of the bytes, consuming them; on an error
    /// nothing is consumed.
    fn read_websocket_dataframe(&mut self) -> (r: WebSocketResult<WebSocketDataFrame>)
        ensures
            match parse_wire_frame(old(self)@) {
                Ok((f, n)) => r matches Ok(df) && df@ == f && final(self)@ == old(self)@.skip(n),
                Err(e) => r == Err::<WebSocketDataFrame, WebSocketError>(e) && final(self)@ == old(
                    self,
                )@,
            },
    {
        if self.len() < 2 {
            return Err(WebSocketError::IoError(IoErrorKind::UnexpectedEof));
        }
        let byte0 = self[0];
        let finished = (byte0 >> 7) & 0x01 == 0x01;
        let reserved = [
            (byte0 >> 6) & 0x01 == 0x01,
            (byte0 >> 5) & 0x01 == 0x01,
            (byte0 >> 4) & 0x01 == 0x01,
        ];
        let opcode = WebSocketOpcode::from_nibble(byte0);
        let byte1 = self[1];
        let mask = (byte1 >> 7) & 0x01 == 0x01;
        let length_tiny = byte1 & 0x7F;
        let length;
        let pos: usize;
        if length_tiny == 126 {
            if self.len() < 4 {
                return Err(WebSocketError::IoError(IoErrorKind::UnexpectedEof));
            }
            let s = slice_subrange(self.as_slice(), 2, 4);
            length = WebSocketDataFrameLength::Short(read_be_u16(s));
            pos = 4;
        } else if length_tiny == 127 {
            if self.len() < 10 {
                return Err(WebSocketError::IoError(IoErrorKind::UnexpectedEof));
            }
            let s = slice_subrange(self.as_slice(), 2, 10);
            length = WebSocketDataFrameLength::Long(read_be_u64(s));
            pos = 10;
        } else {
            length = WebSocketDataFrameLength::Tiny(length_tiny);
            pos = 2;
        }
        let key_end: usize = if mask {
            pos + 4
        } else {
            pos
        };
        if self.len() < key_end {
            return Err(WebSocketError::IoError(IoErrorKind::UnexpectedEof));
        }
        let len: u64 = match length {
            WebSocketDataFrameLength::Tiny(n) => n as u64,
            WebSocketDataFrameLength::Short(n) => n as u64,
            WebSocketDataFrameLength::Long(n) => n,
        };
        if ((self.len() - key_end) as u64) < len {
            return Err(WebSocketError::IoError(IoErrorKind::UnexpectedEof));
        }
        let masking_key = if mask {
            Some([self[pos], self[pos + 1], self[pos + 2], self[pos + 3]])
        } else {
            None
        };
        let end = key_end + len as usize;
        let data = slice_to_vec(slice_subrange(self.as_slice(), key_end, end));
        let df = WebSocketDataFrame {
            finished,
            reserved,
            opcode,
            mask: masking_key,
            length,
            data,
        };
        proof {
            let s = self@;
            assert(df.reserved@ =~= seq![
                (byte0 >> 6u8) & 0x01u8 == 0x01u8,
                (byte0 >> 5u8) & 0x01u8 == 0x01u8,
                (byte0 >> 4u8) & 0x01u8 == 0x01u8,
            ]);
            if mask {
                assert(masking_key.unwrap()@ =~= s.subrange(pos as int, pos + 4));
            }
        }
        let rest = bytes_after(self, end);
        *self = rest;
        Ok(df)
    }
}

impl WriteWebSocketDataFrame for Vec<u8> {
    /// Appends the bytes of the frame; writing to memory never fails.
    fn write_websocket_dataframe(&mut self, dataframe: WebSocketDataFrame) -> (r: WebSocketResult<()>)
        ensures
            r is Ok,
            final(self)@ == old(self)@ + wire_frame_bytes(dataframe@),
    {
        let ghost start = self@;
        let ghost f = dataframe@;
        let byte0: u8 = (if dataframe.finished {
            0x80u8
        } else {
            0u8
        }) | (if dataframe.reserved[0] {
            0x40u8
        } else {
            0u8
        }) | (if dataframe.reserved[1] {
            0x20u8
        } else {
            0u8
        }) | (if dataframe.reserved[2] {
            0x10u8
        } else {
            0u8
        }) | dataframe.opcode.to_nibble();
        let mask_bit: u8 = if dataframe.mask.is_some() {
            0x80
        } else {
            0x00
        };
        let code: u8 = match dataframe.length {
            WebSocketDataFrameLength::Tiny(length) => length,
            WebSocketDataFrameLength::Short(_) => 0x7E,
            WebSocketDataFrameLength::Long(_) => 0x7F,
        };
        self.push(byte0);
        self.push(mask_bit | code);
        assert(self@ =~= start + seq![wire_byte0(f), wire_byte1(f)]);
        let ghost after_two = self@;
        match dataframe.length {
            WebSocketDataFrameLength::Tiny(_) => {
                assert(self@ =~= after_two + wire_ext_len(f.length));
            },
            WebSocketDataFrameLength::Short(length) => {
                let b = write_be_u16(length);
                self.push(b[0]);
                self.push(b[1]);
                assert(self@ =~= after_two + wire_ext_len(f.length));
            },
            WebSocketDataFrameLength::Long(length) => {
                let b = write_be_u64(length);
                extend_bytes(self, &b);
                assert(self@ =~= after_two + wire_ext_len(f.length));
            },
        }
        match dataframe.mask {
            Some(key) => {
                extend_bytes(self, &key);
            },
            None => {},
        }
        extend_bytes(self, dataframe.data.as_slice());
        assert(self@ =~= start + wire_frame_bytes(f));
        Ok(())
    }
}

/// A frame that reading gives back as written: three reserved bits, an
/// opcode nibble, a 4-byte key if masked, a one-byte length of at most 125,
/// and as much data as the length field says.
pub open spec fn wire_frame_wf(f: WireFrameView) -> bool {
    &&& f.reserved.len() == 3
    &&& f.opcode <= 15
    &&& (f.mask matches Some(k) ==> k.len() == 4)
    &&& (f.length matches WebSocketDataFrameLength::Tiny(n) ==> n <= 125)
    &&& f.data.len() == length_value(f.length)
}

/// The first header byte of a frame gives back its flags and opcode.
proof fn lemma_wire_byte0(f: WireFrameView)
    requires
        f.opcode <= 15,
    ensures
        ({
            let x = wire_byte0(f);
            &&& ((x >> 7u8) & 0x01u8 == 0x01u8) == f.finished
            &&& ((x >> 6u8) & 0x01u8 == 0x01u8) == f.reserved[0]
            &&& ((x >> 5u8) & 0x01u8 == 0x01u8) == f.reserved[1]
            &&& ((x >> 4u8) & 0x01u8 == 0x01u8) == f.reserved[2]
            &&& x & 0x0Fu8 == f.opcode
        }),
{
    let (l, a, b, c, o) = (f.finished, f.reserved[0], f.reserved[1], f.reserved[2], f.opcode);
    assert({
        let x: u8 = (if l {
            0x80u8
        } else {
            0u8
        }) | (if a {
            0x40u8
        } else {
            0u8
        }) | (if b {
            0x20u8
        } else {
            0u8
        }) | (if c {
            0x10u8
        } else {
            0u8
        }) | o;
        o <= 15 ==> {
            &&& ((x >> 7u8) & 0x01u8 == 0x01u8) == l
            &&& ((x >> 6u8) & 0x01u8 == 0x01u8) == a
            &&& ((x >> 5u8) & 0x01u8 == 0x01u8) == b
            &&& ((x >> 4u8) & 0x01u8 == 0x01u8) == c
            &&& x & 0x0Fu8 == o
        }
    }) by (bit_vector);
}

/// The second header byte of a frame gives back its mask flag and length code.
proof fn lemma_wire_byte1(f: WireFrameView)
    requires
        f.length matches WebSocketDataFrameLength::Tiny(n) ==> n <= 125,
    ensures
        ({
            let x = wire_byte1(f);
            &&& ((x >> 7u8) & 0x01u8 == 0x01u8) == (f.mask is Some)
            &&& x & 0x7Fu8 == match f.length {
                WebSocketDataFrameLength::Tiny(n) => n,
                WebSocketDataFrameLength::Short(_) => 0x7Eu8,
                WebSocketDataFrameLength::Long(_) => 0x7Fu8,
            }
        }),
{
    let m = f.mask is Some;
    let code: u8 = match f.length {
        WebSocketDataFrameLength::Tiny(n) => n,
        WebSocketDataFrameLength::Short(_) => 0x7Eu8,
        WebSocketDataFrameLength::Long(_) => 0x7Fu8,
    };
    assert(code <= 127 ==> ((if m {
        0x80u8
    } else {
        0u8
    }) | code) & 0x7Fu8 == code && (((((if m {
        0x80u8
    } else {
        0u8
    }) | code) >> 7u8) & 0x01u8 == 0x01u8) == m)) by (bit_vector);
}

/// The length field written after two header bytes is read back, whatever follows it.
proof fn lemma_wire_length(head: Seq<u8>, l: WebSocketDataFrameLength, tail: Seq<u8>, code: u8)
    requires
        head.len() == 2,
        l matches WebSocketDataFrameLength::Tiny(n) ==> n <= 125 && code == n,
        l is Short ==> code == 0x7Eu8,
        l is Long ==> code == 0x7Fu8,
    ensures
        parse_wire_length(head + wire_ext_len(l) + tail, code) == Ok::<
            (WebSocketDataFrameLength, int),
            WebSocketError,
        >((l, 2 + wire_ext_len(l).len() as int)),
{
    let s = head + wire_ext_len(l) + tail;
    match l {
        WebSocketDataFrameLength::Tiny(n) => {},
        WebSocketDataFrameLength::Short(n) => {
            lemma_be16_roundtrip(n, tail);
            assert(s.subrange(2, 4) =~= be16_bytes(n));
            assert(be16_value(be16_bytes(n) + tail) == be16_value(s.subrange(2, 4)));
        },
        WebSocketDataFrameLength::Long(n) => {
            lemma_be64_roundtrip(n, tail);
            assert(s.subrange(2, 10) =~= be64_bytes(n));
            assert(be64_value(be64_bytes(n) + tail) == be64_value(s.subrange(2, 10)));
        },
    }
}

/// Reading the bytes written for a frame gives back that frame and the number
/// of bytes written, whatever follows them.
pub proof fn lemma_wire_frame_roundtrip(f: WireFrameView, rest: Seq<u8>)
    requires
        wire_frame_wf(f),
    ensures
        parse_wire_frame(wire_frame_bytes(f) + rest) == Ok::<(WireFrameView, int), WebSocketError>(
            (f, wire_frame_bytes(f).len() as int),
        ),
{
    let b0 = wire_byte0(f);
    let b1 = wire_byte1(f);
    let head = seq![b0, b1];
    let ext = wire_ext_len(f.length);
    let key = match f.mask {
        Some(k) => k,
        None => Seq::<u8>::empty(),
    };
    let tail = key + f.data + rest;
    let s = wire_frame_bytes(f) + rest;
    assert(s =~= head + ext + tail);
    lemma_wire_byte0(f);
    lemma_wire_byte1(f);
    let code = b1 & 0x7Fu8;
    lemma_wire_length(head, f.length, tail, code);
    let pos: int = 2 + ext.len() as int;
    let key_end: int = pos + key.len() as int;
    assert(s.subrange(pos, pos + key.len()) =~= key);
    assert(s.subrange(key_end, key_end + f.data.len()) =~= f.data);
    assert(f.reserved =~= seq![
        (b0 >> 6u8) & 0x01u8 == 0x01u8,
        (b0 >> 5u8) & 0x01u8 == 0x01u8,
        (b0 >> 4u8) & 0x01u8 == 0x01u8,
    ]);
}

/// A data frame whose data is as long as its length field says (a tiny
/// length at most 125) is read back as written: reading the bytes
/// `write_websocket_dataframe` appends gives a frame with the same fields and
/// consumes exactly those bytes, whatever follows them.
pub proof fn lemma_dataframe_roundtrip(df: WebSocketDataFrame, rest: Seq<u8>)
    requires
        df.data@.len() == length_value(df.length),
        df.length matches WebSocketDataFrameLength::Tiny(n) ==> n <= 125,
    ensures
        parse_wire_frame(wire_frame_bytes(df@) + rest) == Ok::<(WireFrameView, int), WebSocketError>(
            (df@, wire_frame_bytes(df@).len() as int),
        ),
        (wire_frame_bytes(df@) + rest).skip(wire_frame_bytes(df@).len() as int) == rest,
{
    assert(wire_frame_wf(df@));
    lemma_wire_frame_roundtrip(df@, rest);
    assert((wire_frame_bytes(df@) + rest).skip(wire_frame_bytes(df@).len() as int) =~= rest);
}

} // verus!
