//! Reading and writing data frame headers (RFC 6455, section 5.2).

use crate::result::{DataFrameErrorKind, ProtocolErrorKind, WebSocketError, WebSocketResult};
use crate::ws::util::byte_order::{lemma_be16_roundtrip, lemma_be64_roundtrip, lemma_be16_canonical, lemma_be64_canonical, be16_bytes, be16_value, be64_bytes, be64_value, read_be_u16, read_be_u64, write_be_u16, write_be_u64};
use vstd::prelude::*;
use vstd::slice::slice_subrange;

verus! {

/// Bit of the first header byte that marks the last frame of a message.
pub const FIN: u8 = 0x80;

/// First reserved bit of the first header byte.
pub const RSV1: u8 = 0x40;

/// Second reserved bit of the first header byte.
pub const RSV2: u8 = 0x20;

/// Third reserved bit of the first header byte.
pub const RSV3: u8 = 0x10;

/// Flags relevant to a WebSocket data frame: the high nibble of the first header byte.
#[derive(Debug, Clone, Copy, PartialEq, Eq, Structural)]
pub struct DataFrameFlags {
    /// The flag bits (only the high four bits are meaningful).
    pub bits: u8,
}

impl DataFrameFlags {
    /// No flag set.
    pub fn empty() -> (f: DataFrameFlags)
        ensures
            f.bits == 0,
    {
        DataFrameFlags { bits: 0 }
    }

    /// The flags made of one bit.
    pub fn from_bit(bit: u8) -> (f: DataFrameFlags)
        ensures
            f.bits == bit,
    {
        DataFrameFlags { bits: bit }
    }

    /// The flags of `bits`, dropping every bit that is not a flag.
    pub fn from_bits_truncate(bits: u8) -> (f: DataFrameFlags)
        ensures
            f.bits == bits & 0xF0u8,
    {
        DataFrameFlags { bits: bits & 0xF0 }
    }

    /// Whether every flag of `other` is set in `self`.
    pub fn contains(&self, other: DataFrameFlags) -> (b: bool)
        ensures
            b == (self.bits & other.bits == other.bits),
    {
        self.bits & other.bits == other.bits
    }

    /// Sets every flag of `other`.
    pub fn insert(&mut self, other: DataFrameFlags)
        ensures
            final(self).bits == old(self).bits | other.bits,
    {
        self.bits = self.bits | other.bits;
    }
}

/// The mathematical content of a data frame header.
pub struct HeaderView {
    pub flags: u8,
    pub opcode: u8,
    pub mask: Option<Seq<u8>>,
    pub len: u64,
}

/// Represents a data frame header.
#[derive(Debug, Clone, Copy, PartialEq, Eq)]
pub struct DataFrameHeader {
    /// The bit flags for the first byte of the header.
    pub flags: DataFrameFlags,
    /// The opcode of the header - must be <= 16.
    pub opcode: u8,
    /// The masking key, if any.
    pub mask: Option<[u8; 4]>,
    /// The length of the payload.
    pub len: u64,
}

impl View for DataFrameHeader {
    type V = HeaderView;

    open spec fn view(&self) -> HeaderView {
        HeaderView {
            flags: self.flags.bits,
            opcode: self.opcode,
            mask: match self.mask {
                Some(k) => Some(k@),
                None => None,
            },
            len: self.len,
        }
    }
}

/// The 7-bit payload length field of the second header byte.
pub open spec fn len_code(len: u64) -> u8 {
    if len <= 125 {
        len as u8
    } else if len <= 65535 {
        126u8
    } else {
        127u8
    }
}

/// The extended payload length that follows the first two header bytes.
pub open spec fn extended_len_bytes(len: u64) -> Seq<u8> {
    if 126 <= len <= 65535 {
        be16_bytes(len as u16)
    } else if len > 65535 {
        be64_bytes(len)
    } else {
        Seq::empty()
    }
}

/// The bytes of a header on the wire.
pub open spec fn header_bytes(h: HeaderView) -> Seq<u8> {
    let mask_bit: u8 = if h.mask is Some {
        0x80u8
    } else {
        0u8
    };
    seq![h.flags | h.opcode, mask_bit | len_code(h.len)] + extended_len_bytes(h.len) + match h.mask {
        Some(k) => k,
        None => Seq::empty(),
    }
}

/// The error, if any, with which writing header `h` is refused.
pub open spec fn header_write_error(h: HeaderView) -> Option<WebSocketError> {
    if h.opcode > 15 {
        Some(WebSocketError::DataFrameError(DataFrameErrorKind::InvalidOpcode))
    } else if h.opcode >= 8 && h.len >= 126 {
        Some(WebSocketError::DataFrameError(DataFrameErrorKind::ControlFrameTooLong))
    } else {
        None
    }
}

/// The payload length a header declares, with the number of header bytes read so far.
pub open spec fn parse_len(s: Seq<u8>) -> Result<(u64, int), WebSocketError>
    recommends
        s.len() >= 2,
{
    let code = s[1] & 0x7Fu8;
    if code <= 125 {
        Ok((code as u64, 2))
    } else if code == 126 {
        if s.len() < 4 {
            Err(WebSocketError::NoDataAvailable)
        } else {
            let l = be16_value(s.subrange(2, 4)) as u64;
            if l <= 125 {
                Err(WebSocketError::DataFrameError(DataFrameErrorKind::InvalidLength))
            } else {
                Ok((l, 4))
            }
        }
    } else {
        if s.len() < 10 {
            Err(WebSocketError::NoDataAvailable)
        } else {
            let l = be64_value(s.subrange(2, 10));
            if l <= 65535 {
                Err(WebSocketError::DataFrameError(DataFrameErrorKind::InvalidLength))
            } else {
                Ok((l, 10))
            }
        }
    }
}

/// The header at the start of `s`, with the number of bytes it takes, or the
/// error with which reading it fails.
pub open spec fn parse_header(s: Seq<u8>) -> Result<(HeaderView, int), WebSocketError> {
    if s.len() < 2 {
        Err(WebSocketError::NoDataAvailable)
    } else {
        let flags = s[0] & 0xF0u8;
        let opcode = s[0] & 0x0Fu8;
        match parse_len(s) {
            Err(e) => Err(e),
            Ok((len, pos)) => {
                if opcode >= 8 && len >= 126 {
                    Err(WebSocketError::DataFrameError(DataFrameErrorKind::ControlFrameTooLong))
                } else if opcode >= 8 && flags & 0x80u8 == 0 {
                    Err(WebSocketError::ProtocolError(ProtocolErrorKind::IllegalFragmentedControlFrame))
                } else if s[1] & 0x80u8 == 0x80u8 {
                    if s.len() < pos + 4 {
                        Err(WebSocketError::NoDataAvailable)
                    } else {
                        Ok(
                            (
                                HeaderView {
                                    flags,
                                    opcode,
                                    mask: Some(s.subrange(pos, pos + 4)),
                                    len,
                                },
                                pos + 4,
                            ),
                        )
                    }
                } else {
                    Ok((HeaderView { flags, opcode, mask: None, len }, pos))
                }
            },
        }
    }
}

/// A header that reading accepts: flags in the high nibble, an opcode of four
/// bits, a 4-byte key if masked, and a short, final payload for control frames.
pub open spec fn header_wf(h: HeaderView) -> bool {
    &&& h.flags & 0x0Fu8 == 0
    &&& h.opcode <= 15
    &&& (h.mask matches Some(k) ==> k.len() == 4)
    &&& h.opcode >= 8 ==> h.len < 126 && h.flags & 0x80u8 == 0x80u8
}

/// Writes a data frame header, appending its bytes to `buf`.
pub fn write_header(buf: &mut Vec<u8>, header: DataFrameHeader) -> (r: WebSocketResult<()>)
    ensures
        match r {
            Ok(()) => header_write_error(header@) is None && final(buf)@ == old(buf)@
                + header_bytes(header@),
            Err(e) => header_write_error(header@) == Some(e) && final(buf)@ == old(buf)@,
        },
{
    if header.opcode > 0xF {
        return Err(WebSocketError::DataFrameError(DataFrameErrorKind::InvalidOpcode));
    }
    if header.opcode >= 8 && header.len >= 126 {
        return Err(WebSocketError::DataFrameError(DataFrameErrorKind::ControlFrameTooLong));
    }
    let ghost start = buf@;
    buf.push(header.flags.bits | header.opcode);
    let mask_bit: u8 = if header.mask.is_some() {
        0x80
    } else {
        0x00
    };
    let code: u8 = if header.len <= 125 {
        header.len as u8
    } else if header.len <= 65535 {
        126
    } else {
        127
    };
    buf.push(mask_bit | code);
    assert(buf@ =~= start + seq![header.flags.bits | header.opcode, mask_bit | len_code(header.len)]);
    let ghost after_two = buf@;
    if header.len >= 126 && header.len <= 65535 {
        let b = write_be_u16(header.len as u16);
        buf.push(b[0]);
        buf.push(b[1]);
        assert(buf@ =~= after_two + extended_len_bytes(header.len));
    } else if header.len > 65535 {
        let b = write_be_u64(header.len);
        let mut i: usize = 0;
        while i < 8
            invariant
                i <= 8,
                b@ == be64_bytes(header.len),
                buf@ == after_two + b@.subrange(0, i as int),
            decreases 8 - i,
        {
            buf.push(b[i]);
            i = i + 1;
            assert(buf@ =~= after_two + b@.subrange(0, i as int));
        }
        assert(b@.subrange(0, 8) =~= b@);
    } else {
        assert(buf@ =~= after_two + extended_len_bytes(header.len));
    }
    let ghost after_len = buf@;
    match header.mask {
        Some(k) => {
            buf.push(k[0]);
            buf.push(k[1]);
            buf.push(k[2]);
            buf.push(k[3]);
            assert(buf@ =~= after_len + k@);
        },
        None => {
            assert(buf@ =~= after_len + Seq::<u8>::empty());
        },
    }
    assert(buf@ =~= start + header_bytes(header@));
    Ok(())
}

/// Reads a data frame header from the start of `bytes`, returning it with the
/// number of bytes it takes.
pub fn read_header(bytes: &[u8]) -> (r: WebSocketResult<(DataFrameHeader, usize)>)
    ensures
        match r {
            Ok((h, n)) => parse_header(bytes@) == Ok::<(HeaderView, int), WebSocketError>(
                (h@, n as int),
            ),
            Err(e) => parse_header(bytes@) == Err::<(HeaderView, int), WebSocketError>(e),
        },
{
    if bytes.len() < 2 {
        return Err(WebSocketError::NoDataAvailable);
    }
    let byte0 = bytes[0];
    let byte1 = bytes[1];
    let flags = DataFrameFlags::from_bits_truncate(byte0);
    let opcode = byte0 & 0x0F;
    let code = byte1 & 0x7F;
    let len: u64;
    let pos: usize;
    if code <= 125 {
        len = code as u64;
        pos = 2;
    } else if code == 126 {
        if bytes.len() < 4 {
            return Err(WebSocketError::NoDataAvailable);
        }
        let l = read_be_u16(slice_subrange(bytes, 2, 4)) as u64;
        if l <= 125 {
            return Err(WebSocketError::DataFrameError(DataFrameErrorKind::InvalidLength));
        }
        len = l;
        pos = 4;
    } else {
        if bytes.len() < 10 {
            return Err(WebSocketError::NoDataAvailable);
        }
        let l = read_be_u64(slice_subrange(bytes, 2, 10));
        if l <= 65535 {
            return Err(WebSocketError::DataFrameError(DataFrameErrorKind::InvalidLength));
        }
        len = l;
        pos = 10;
    }
    assert(parse_len(bytes@) == Ok::<(u64, int), WebSocketError>((len, pos as int)));
    assert((byte0 & 0xF0u8) & 0x80u8 == 0x80u8 <==> !((byte0 & 0xF0u8) & 0x80u8 == 0u8))
        by (bit_vector);
    if opcode >= 8 {
        if len >= 126 {
            return Err(WebSocketError::DataFrameError(DataFrameErrorKind::ControlFrameTooLong));
        }
        if !flags.contains(DataFrameFlags::from_bit(FIN)) {
            return Err(
                WebSocketError::ProtocolError(ProtocolErrorKind::IllegalFragmentedControlFrame),
            );
        }
    }
    if byte1 & 0x80 == 0x80 {
        if bytes.len() < pos + 4 {
            return Err(WebSocketError::NoDataAvailable);
        }
        let k = [bytes[pos], bytes[pos + 1], bytes[pos + 2], bytes[pos + 3]];
        assert(k@ =~= bytes@.subrange(pos as int, pos + 4));
        let h = DataFrameHeader { flags, opcode, mask: Some(k), len };
        Ok((h, pos + 4))
    } else {
        let h = DataFrameHeader { flags, opcode, mask: None, len };
        Ok((h, pos))
    }
}

/// Reading the bytes written for a header that reading accepts gives back that
/// header and the number of bytes written, whatever follows them.
pub proof fn lemma_header_roundtrip(h: HeaderView, rest: Seq<u8>)
    requires
        header_wf(h),
    ensures
        parse_header(header_bytes(h) + rest) == Ok::<(HeaderView, int), WebSocketError>(
            (h, header_bytes(h).len() as int),
        ),
{
    let mask_bit: u8 = if h.mask is Some {
        0x80u8
    } else {
        0u8
    };
    let code = len_code(h.len);
    let ext = extended_len_bytes(h.len);
    let key = match h.mask {
        Some(k) => k,
        None => Seq::<u8>::empty(),
    };
    let s = header_bytes(h) + rest;
    assert(header_bytes(h) == seq![h.flags | h.opcode, mask_bit | code] + ext + key);
    assert(s[0] == h.flags | h.opcode);
    assert(s[1] == mask_bit | code);
    let f = h.flags;
    let o = h.opcode;
    assert(f & 0x0Fu8 == 0 && o <= 15 ==> (f | o) & 0xF0u8 == f && (f | o) & 0x0Fu8 == o)
        by (bit_vector);
    assert(code <= 127);
    assert(code <= 127 ==> (mask_bit | code) & 0x7Fu8 == code) by (bit_vector)
        requires
            mask_bit == 0x80u8 || mask_bit == 0u8,
    ;
    assert(((mask_bit | code) & 0x80u8 == 0x80u8) == (mask_bit == 0x80u8)) by (bit_vector)
        requires
            mask_bit == 0x80u8 || mask_bit == 0u8,
            code <= 127,
    ;
    let tail = ext + key + rest;
    assert(s =~= seq![s[0], s[1]] + tail);
    if h.len <= 125 {
        assert(code as u64 == h.len);
        assert(ext.len() == 0);
        assert(parse_len(s) == Ok::<(u64, int), WebSocketError>((h.len, 2)));
    } else if h.len <= 65535 {
        lemma_be16_roundtrip(h.len as u16, key + rest);
        assert(s.subrange(2, 4) =~= be16_bytes(h.len as u16));
        assert(be16_bytes(h.len as u16) =~= (be16_bytes(h.len as u16) + (key + rest)).subrange(0, 2));
        assert(be16_value(be16_bytes(h.len as u16) + (key + rest)) == be16_value(
            s.subrange(2, 4),
        ));
        assert(parse_len(s) == Ok::<(u64, int), WebSocketError>((h.len, 4)));
    } else {
        lemma_be64_roundtrip(h.len, key + rest);
        assert(s.subrange(2, 10) =~= be64_bytes(h.len));
        assert(be64_value(be64_bytes(h.len) + (key + rest)) == be64_value(s.subrange(2, 10)));
        assert(parse_len(s) == Ok::<(u64, int), WebSocketError>((h.len, 10)));
    }
    let pos: int = 2 + ext.len() as int;
    match h.mask {
        Some(k) => {
            assert(s.subrange(pos, pos + 4) =~= k);
        },
        None => {},
    }
}

/// A header that reading accepts is written back as exactly the bytes it was read from.
pub proof fn lemma_header_canonical(s: Seq<u8>)
    ensures
        parse_header(s) matches Ok((h, n)) ==> header_wf(h) && n <= s.len() && header_bytes(h)
            =~= s.subrange(0, n),
{
    if let Ok((h, n)) = parse_header(s) {
        let b0 = s[0];
        let b1 = s[1];
        assert((b0 & 0xF0u8) & 0x0Fu8 == 0 && b0 & 0x0Fu8 <= 15 && ((b0 & 0xF0u8) | (b0
            & 0x0Fu8)) == b0) by (bit_vector);
        let mask_bit: u8 = if h.mask is Some {
            0x80u8
        } else {
            0u8
        };
        let code = b1 & 0x7Fu8;
        assert(mask_bit == b1 & 0x80u8) by {
            assert((b1 & 0x80u8 == 0x80u8) || (b1 & 0x80u8 == 0u8)) by (bit_vector);
        }
        assert((b1 & 0x80u8) | (b1 & 0x7Fu8) == b1) by (bit_vector);
        if code <= 125 {
            assert(len_code(h.len) == code);
            assert(extended_len_bytes(h.len) =~= Seq::<u8>::empty());
        } else if code == 126 {
            lemma_be16_canonical(s.subrange(2, 4));
            assert(s.subrange(2, 4).subrange(0, 2) =~= s.subrange(2, 4));
            assert(h.len as u16 == be16_value(s.subrange(2, 4)));
            assert(extended_len_bytes(h.len) =~= s.subrange(2, 4));
        } else {
            assert(code == 127) by (bit_vector)
                requires
                    code == b1 & 0x7Fu8,
                    code > 126,
            ;
            lemma_be64_canonical(s.subrange(2, 10));
            assert(s.subrange(2, 10).subrange(0, 8) =~= s.subrange(2, 10));
            assert(extended_len_bytes(h.len) =~= s.subrange(2, 10));
        }
        assert(((b0 & 0xF0u8) & 0x80u8 == 0x80u8) || ((b0 & 0xF0u8) & 0x80u8 == 0u8))
            by (bit_vector);
        let ext = extended_len_bytes(h.len);
        let pos: int = 2 + ext.len() as int;
        assert(ext =~= s.subrange(2, pos));
        let key = match h.mask {
            Some(k) => k,
            None => Seq::<u8>::empty(),
        };
        assert(key =~= s.subrange(pos, n));
        assert(seq![h.flags | h.opcode, mask_bit | len_code(h.len)] =~= s.subrange(0, 2));
        assert(s.subrange(0, n) =~= s.subrange(0, 2) + s.subrange(2, pos) + s.subrange(pos, n));
    }
}

} // verus!
