//! Utility methods for reading and writing data frames.

use crate::dataframe::{frame_of, DataFrame, FrameView};
use crate::result::{WebSocketError, WebSocketResult};
use crate::ws::dataframe::{frame_bytes, frame_writable, DataFrame as DataFrameTrait};
use crate::ws::util::header::{header_write_error, parse_header, read_header};
use crate::ws::dataframe::frame_header;
use vstd::prelude::*;
use vstd::slice::{slice_subrange, slice_to_vec};

verus! {

/// The frame at the start of `s` with the number of bytes read, when the
/// input may end before the payload does: the payload is then what is left.
pub open spec fn parse_frame_prefix(s: Seq<u8>, should_be_masked: bool) -> Result<
    (FrameView, int),
    WebSocketError,
> {
    match parse_header(s) {
        Err(e) => Err(e),
        Ok((h, pos)) => {
            let end = if s.len() - pos < h.len {
                s.len() as int
            } else {
                pos + h.len
            };
            match frame_of(h, s.subrange(pos, end), should_be_masked) {
                Err(e) => Err(e),
                Ok(f) => Ok((f, end)),
            }
        },
    }
}

/// Reads a DataFrame from the start of `bytes`, returning it with the number
/// of bytes read. A payload cut short by the end of the input is read as far
/// as it goes.
pub fn read_dataframe(bytes: &[u8], should_be_masked: bool) -> (r: WebSocketResult<(DataFrame, usize)>)
    ensures
        match r {
            Ok((df, n)) => parse_frame_prefix(bytes@, should_be_masked) == Ok::<
                (FrameView, int),
                WebSocketError,
            >((df@, n as int)),
            Err(e) => parse_frame_prefix(bytes@, should_be_masked) == Err::<
                (FrameView, int),
                WebSocketError,
            >(e),
        },
{
    let (header, pos) = read_header(bytes)?;
    proof {
        crate::ws::util::header::lemma_header_canonical(bytes@);
    }
    let end = if ((bytes.len() - pos) as u64) < header.len {
        bytes.len()
    } else {
        pos + header.len as usize
    };
    let body = slice_to_vec(slice_subrange(bytes, pos, end));
    let df = DataFrame::read_dataframe_body(header, body, should_be_masked)?;
    Ok((df, end))
}

/// Writes a DataFrame to the end of `writer`, masked with a fresh random key
/// when `mask` is set.
pub fn write_dataframe(writer: &mut Vec<u8>, mask: bool, dataframe: DataFrame) -> (r: WebSocketResult<()>)
    requires
        dataframe.reserved@.len() == 3,
    ensures
        match r {
            Ok(()) => frame_writable(dataframe.opcode_view(), dataframe.data@.len()) && exists|
                key: Option<Seq<u8>>,
            |
                #![trigger frame_bytes(dataframe.finished, dataframe.reserved@, dataframe.opcode_view(), dataframe.data@, key)]
                (key is Some) == mask && (key matches Some(k) ==> k.len() == 4) && final(writer)@
                    == old(writer)@ + frame_bytes(
                    dataframe.finished,
                    dataframe.reserved@,
                    dataframe.opcode_view(),
                    dataframe.data@,
                    key,
                ),
            Err(e) => !frame_writable(dataframe.opcode_view(), dataframe.data@.len())
                && final(writer)@ == old(writer)@,
        },
{
    let payload_len = dataframe.data.len();
    assert(payload_len == dataframe.payload_view().len());
    dataframe.write_to(writer, mask)
}

} // verus!
