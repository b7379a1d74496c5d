//! Framing of a byte stream into RESP values, so that a connection can be
//! driven one value at a time instead of by manual buffer handling.
use bytes::BytesMut;
use vstd::prelude::*;

use crate::buffer::{
    bytes_as_slice,
    bytes_mut_advance,
    bytes_mut_as_slice,
    bytes_mut_contents,
    bytes_mut_extend_from_slice,
    bytes_mut_is_empty,
};
use crate::resp::types::{encode_value, parse_value, RespType, RespValue};
use crate::resp::{RespError, RespErrorView};

verus! {

/// Frames a byte stream into RESP values.
#[derive(Debug)]
pub struct RespCodec;

impl Default for RespCodec {
    fn default() -> (r: RespCodec)
        ensures
            r == RespCodec,
    {
        RespCodec
    }
}

/// What decoding makes of a read buffer that holds `b`: the value at its
/// front; `None` while the buffer is empty or holds only the beginning of a
/// value; or the protocol error that no further bytes can mend.
pub open spec fn decoded(b: Seq<u8>) -> Result<Option<RespValue>, RespErrorView> {
    if b.len() == 0 {
        Ok(None)
    } else {
        match parse_value(b) {
            Ok((v, _)) => Ok(Some(v)),
            Err(RespErrorView::Incomplete) => Ok(None),
            Err(e) => Err(e),
        }
    }
}

/// What the read buffer holds after decoding: the bytes behind the decoded
/// value, or all of it where no value was decoded.
pub open spec fn left_after_decode(b: Seq<u8>) -> Seq<u8> {
    if b.len() == 0 {
        b
    } else {
        match parse_value(b) {
            Ok((_, n)) => b.skip(n),
            Err(_) => b,
        }
    }
}

impl RespCodec {
    /// Decode one RESP value from the front of `read_buffer`, removing its
    /// bytes from the buffer. `Ok(None)` means "not enough bytes yet": the
    /// buffer is left untouched so that more bytes can be appended to it.
    pub fn decode(&mut self, read_buffer: &mut BytesMut) -> (r: Result<Option<RespType>, RespError>)
        ensures
            r matches Ok(Some(v)) ==> decoded(bytes_mut_contents(*old(read_buffer))) == Ok::<
                Option<RespValue>,
                RespErrorView,
            >(Some(v@)),
            r matches Ok(None) ==> decoded(bytes_mut_contents(*old(read_buffer))) == Ok::<
                Option<RespValue>,
                RespErrorView,
            >(None),
            r matches Err(e) ==> decoded(bytes_mut_contents(*old(read_buffer))) == Err::<
                Option<RespValue>,
                RespErrorView,
            >(e@),
            bytes_mut_contents(*final(read_buffer)) == left_after_decode(
                bytes_mut_contents(*old(read_buffer)),
            ),
    {
        if bytes_mut_is_empty(read_buffer) {
            return Ok(None);
        }
        let parsed = RespType::parse(bytes_mut_as_slice(read_buffer));
        match parsed {
            Ok((value, bytes_consumed)) => {
                bytes_mut_advance(read_buffer, bytes_consumed);
                Ok(Some(value))
            },
            // Not a protocol error: the rest of the value just hasn't arrived
            // yet, so the buffer stays as it is until more bytes come.
            Err(RespError::Incomplete) => Ok(None),
            Err(parse_error) => Err(parse_error),
        }
    }

    /// Append the wire bytes of `value` to `write_buffer`.
    pub fn encode(&mut self, value: RespType, write_buffer: &mut BytesMut)
        ensures
            bytes_mut_contents(*final(write_buffer)) == bytes_mut_contents(*old(write_buffer))
                + encode_value(value@),
    {
        let encoded = value.to_bytes();
        bytes_mut_extend_from_slice(write_buffer, bytes_as_slice(&encoded));
    }
}

} // verus!
