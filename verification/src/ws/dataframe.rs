//! The generic data frame: what every data frame provides, and how it is
//! written to the wire.

use crate::result::{WebSocketError, WebSocketResult};
use crate::ws::util::header::{
    header_bytes, header_write_error, write_header, DataFrameFlags, DataFrameHeader, HeaderView, FIN,
    RSV1, RSV2, RSV3,
};
use crate::ws::util::mask::{gen_mask, mask_data, masked};
use vstd::prelude::*;

verus! {

/// The flag bits of a frame with the FIN bit `last` and the reserved bits `reserved`.
pub open spec fn flag_bits(last: bool, reserved: Seq<bool>) -> u8 {
    (if last {
        FIN
    } else {
        0u8
    }) | (if reserved[0] {
        RSV1
    } else {
        0u8
    }) | (if reserved[1] {
        RSV2
    } else {
        0u8
    }) | (if reserved[2] {
        RSV3
    } else {
        0u8
    })
}

/// The header of a frame with the given fields, payload length and masking key.
pub open spec fn frame_header(
    last: bool,
    reserved: Seq<bool>,
    opcode: u8,
    len: nat,
    key: Option<Seq<u8>>,
) -> HeaderView {
    HeaderView { flags: flag_bits(last, reserved), opcode, mask: key, len: len as u64 }
}

/// The bytes of a whole frame on the wire: its header, then its payload,
/// masked when a key is given.
pub open spec fn frame_bytes(
    last: bool,
    reserved: Seq<bool>,
    opcode: u8,
    payload: Seq<u8>,
    key: Option<Seq<u8>>,
) -> Seq<u8> {
    header_bytes(frame_header(last, reserved, opcode, payload.len(), key)) + match key {
        Some(k) => masked(k, payload),
        None => payload,
    }
}

/// The size of a whole frame with a payload of `size` bytes.
pub open spec fn frame_size_of(size: nat, masked: bool) -> nat {
    1 + (if size <= 125 {
        1nat
    } else if size <= 65535 {
        3nat
    } else {
        9nat
    }) + (if masked {
        4nat
    } else {
        0nat
    }) + size
}

/// Whether a frame with this opcode and payload length can be written.
pub open spec fn frame_writable(opcode: u8, len: nat) -> bool {
    opcode <= 15 && !(opcode >= 8 && len >= 126)
}

/// A generic DataFrame. Every dataframe should be able to
/// provide these methods.
pub trait DataFrame: Sized {
    /// Whether this frame ends its message.
    spec fn last_view(&self) -> bool;

    /// The opcode nibble of this frame.
    spec fn opcode_view(&self) -> u8;

    /// The three reserved bits of this frame.
    spec fn reserved_view(&self) -> Seq<bool>;

    /// The (unmasked) payload of this frame.
    spec fn payload_view(&self) -> Seq<u8>;

    /// Is this dataframe the final dataframe of the message?
    fn is_last(&self) -> (b: bool)
        ensures
            b == self.last_view(),
    ;

    /// What type of data does this dataframe contain?
    fn opcode(&self) -> (o: u8)
        ensures
            o == self.opcode_view(),
    ;

    /// Reserved bits of this dataframe
    fn reserved(&self) -> (r: [bool; 3])
        ensures
            r@ == self.reserved_view(),
    ;

    /// How long (in bytes) is this dataframe's payload
    fn size(&self) -> (n: usize)
        requires
            self.payload_view().len() <= usize::MAX,
        ensures
            n == self.payload_view().len(),
    ;

    /// Write the payload to a writer
    fn write_payload(&self, out: &mut Vec<u8>)
        ensures
            final(out)@ == old(out)@ + self.payload_view(),
    ;

    /// Takes the payload out into a vec
    fn take_payload(self) -> (v: Vec<u8>)
        ensures
            v@ == self.payload_view(),
    ;

    /// Get's the size of the entire dataframe in bytes,
    /// i.e. header and payload.
    fn frame_size(&self, masked: bool) -> (n: usize)
        requires
            self.payload_view().len() + 14 <= usize::MAX,
        ensures
            n == frame_size_of(self.payload_view().len(), masked),
    {
        let size = self.size();
        let len_bytes: usize = if size <= 125 {
            1
        } else if size <= 65535 {
            3
        } else {
            9
        };
        let mask_bytes: usize = if masked {
            4
        } else {
            0
        };
        1 + len_bytes + mask_bytes + size
    }

    /// Writes this frame with the masking key `key` (none for an unmasked frame).
    fn write_with_key(&self, writer: &mut Vec<u8>, key: Option<[u8; 4]>) -> (r: WebSocketResult<()>)
        requires
            self.reserved_view().len() == 3,
            self.payload_view().len() <= usize::MAX,
        ensures
            match r {
                Ok(()) => frame_writable(self.opcode_view(), self.payload_view().len())
                    && final(writer)@ == old(writer)@ + frame_bytes(
                    self.last_view(),
                    self.reserved_view(),
                    self.opcode_view(),
                    self.payload_view(),
                    match key {
                        Some(k) => Some(k@),
                        None => None,
                    },
                ),
                Err(e) => !frame_writable(self.opcode_view(), self.payload_view().len())
                    && final(writer)@ == old(writer)@ && Some(e) == header_write_error(
                    frame_header(
                        self.last_view(),
                        self.reserved_view(),
                        self.opcode_view(),
                        self.payload_view().len(),
                        None,
                    ),
                ),
            },
    {
        let reserved = self.reserved();
        let bits: u8 = (if self.is_last() {
            FIN
        } else {
            0u8
        }) | (if reserved[0] {
            RSV1
        } else {
            0u8
        }) | (if reserved[1] {
            RSV2
        } else {
            0u8
        }) | (if reserved[2] {
            RSV3
        } else {
            0u8
        });
        let flags = DataFrameFlags::from_bit(bits);
        let size = self.size();
        let header = DataFrameHeader { flags, opcode: self.opcode(), mask: key, len: size as u64 };
        let ghost start = writer@;
        match write_header(writer, header) {
            Ok(()) => {},
            Err(e) => {
                return Err(e);
            },
        }
        let ghost after_header = writer@;
        match key {
            Some(k) => {
                let mut payload: Vec<u8> = Vec::new();
                self.write_payload(&mut payload);
                assert(payload@ =~= self.payload_view());
                let mut m = mask_data(k, payload.as_slice());
                writer.append(&mut m);
            },
            None => {
                self.write_payload(writer);
            },
        }
        Ok(())
    }

    /// Writes a DataFrame to a Writer, masked with a fresh random key when `mask` is set.
    fn write_to(&self, writer: &mut Vec<u8>, mask: bool) -> (r: WebSocketResult<()>)
        requires
            self.reserved_view().len() == 3,
            self.payload_view().len() <= usize::MAX,
        ensures
            match r {
                Ok(()) => frame_writable(self.opcode_view(), self.payload_view().len()) && exists|
                    key: Option<Seq<u8>>,
                |
                    #![trigger frame_bytes(self.last_view(), self.reserved_view(), self.opcode_view(), self.payload_view(), key)]
                    (key is Some) == mask && (key matches Some(k) ==> k.len() == 4) && final(writer)@
                        == old(writer)@ + frame_bytes(
                        self.last_view(),
                        self.reserved_view(),
                        self.opcode_view(),
                        self.payload_view(),
                        key,
                    ),
                Err(e) => !frame_writable(self.opcode_view(), self.payload_view().len())
                    && final(writer)@ == old(writer)@ && Some(e) == header_write_error(
                    frame_header(
                        self.last_view(),
                        self.reserved_view(),
                        self.opcode_view(),
                        self.payload_view().len(),
                        None,
                    ),
                ),
            },
    {
        let key = if mask {
            Some(gen_mask())
        } else {
            None
        };
        let r = self.write_with_key(writer, key);
        proof {
            let kv = match key {
                Some(k) => Some(k@),
                None => None,
            };
            if r is Ok {
                assert((kv is Some) == mask && (kv matches Some(k) ==> k.len() == 4));
            }
        }
        r
    }
}

/// What a generic frame holds, as a plain frame.
pub open spec fn frame_summary<D: DataFrame>(d: D) -> crate::dataframe::FrameView {
    crate::dataframe::FrameView {
        finished: d.last_view(),
        reserved: d.reserved_view(),
        opcode: d.opcode_view(),
        data: d.payload_view(),
    }
}

/// What a sequence of generic frames holds, as plain frames.
pub open spec fn frames_summary<D: DataFrame>(frames: Seq<D>) -> Seq<crate::dataframe::FrameView> {
    frames.map_values(|d: D| frame_summary(d))
}

/// The length of a written frame is the frame size the frame predicts.
pub proof fn lemma_frame_bytes_len(
    last: bool,
    reserved: Seq<bool>,
    opcode: u8,
    payload: Seq<u8>,
    key: Option<Seq<u8>>,
)
    requires
        payload.len() <= u64::MAX,
        key matches Some(k) ==> k.len() == 4,
    ensures
        frame_bytes(last, reserved, opcode, payload, key).len() == frame_size_of(
            payload.len(),
            key is Some,
        ),
{
}

} // verus!
