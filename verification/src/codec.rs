//! The frame codec of the `nwd1` crate and the byte buffers of the `bytes`
//! crate, as this library calls them.
//!
//! Nothing here is proved: each contract says what the outside function does,
//! as its source shows it, and the rest of the library is proved from that.

use crate::frame::{frame_wire, holds_whole_frame, wire_decoded, Frame, FIXED_FIELDS_LEN};
use crate::wire::declared_len;
use bytes::{Bytes, BytesMut};
use netid64::NetId64;
use vstd::prelude::*;

verus! {

/// `bytes::BytesMut`, a growable byte buffer.
#[verifier::external_type_specification]
#[verifier::external_body]
pub struct ExBytesMut(bytes::BytesMut);

/// `bytes::Bytes`, an immutable byte buffer.
#[verifier::external_type_specification]
#[verifier::external_body]
pub struct ExBytes(bytes::Bytes);

/// `nwd1::DecodeError`, the reason for which `nwd1::decode` turned bytes down.
#[verifier::external_type_specification]
#[verifier::external_body]
pub struct ExDecodeError(nwd1::DecodeError);

/// The bytes that a `BytesMut` holds, in order.
pub uninterp spec fn buffer_contents(buf: BytesMut) -> Seq<u8>;

/// The bytes that a `Bytes` holds, in order.
pub uninterp spec fn bytes_contents(bytes: Bytes) -> Seq<u8>;

/// `BytesMut::with_capacity`: a buffer that holds no bytes yet. The capacity is
/// kept within what an allocation can have, beyond which the call panics.
#[verifier::external_body]
pub(crate) fn buffer_with_capacity(capacity: usize) -> (buf: BytesMut)
    requires
        capacity <= isize::MAX,
    ensures
        buffer_contents(buf) == Seq::<u8>::empty(),
{
    BytesMut::with_capacity(capacity)
}

/// `BytesMut::extend_from_slice`: the bytes of `extend` are appended to those
/// that the buffer holds. The new length is kept within what an allocation can
/// have, beyond which growing the buffer panics.
#[verifier::external_body]
pub(crate) fn buffer_extend(buf: &mut BytesMut, extend: &[u8])
    requires
        buffer_contents(*old(buf)).len() + extend@.len() <= isize::MAX,
    ensures
        buffer_contents(*final(buf)) == buffer_contents(*old(buf)) + extend@,
{
    buf.extend_from_slice(extend)
}

/// `BytesMut::freeze`: the same bytes, from now on immutable.
#[verifier::external_body]
pub(crate) fn buffer_freeze(buf: BytesMut) -> (bytes: Bytes)
    ensures
        bytes_contents(bytes) == buffer_contents(buf),
{
    buf.freeze()
}

/// `nwd1::encode`, on a frame with the same fields: the magic bytes, the
/// length of the body as a big-endian `u32` (cut to its low 32 bits), then the
/// identifier and the version as 8 big-endian bytes each around the kind byte,
/// then the payload. It allocates the 25 bytes of header and fixed fields
/// beside the payload, which is kept within what an allocation can have.
#[verifier::external_body]
pub(crate) fn codec_encode(frame: &Frame) -> (wire: Vec<u8>)
    requires
        frame.payload@.len() + 8 + FIXED_FIELDS_LEN <= isize::MAX,
    ensures
        wire@ == frame_wire(frame@),
{
    let outside = nwd1::Frame {
        id: NetId64::from_raw(frame.id),
        kind: frame.kind,
        ver: frame.ver,
        payload: Bytes::copy_from_slice(&frame.payload),
    };
    nwd1::encode(&outside).to_vec()
}

/// `nwd1::decode` returns on `wire`, with a frame or an error: where it finds
/// the magic bytes and the declared body, it indexes the 17 bytes of fixed
/// fields in that body, and panics on a body that is shorter.
pub open spec fn decode_defined(wire: Seq<u8>) -> bool {
    holds_whole_frame(wire) ==> declared_len(wire) >= FIXED_FIELDS_LEN
}

/// `nwd1::decode`: fails on fewer than 8 bytes, on other magic bytes and on
/// fewer bytes behind the header than it declares; else the frame is read from
/// the declared body, identifier and version as big-endian numbers, the
/// payload being what follows the fixed fields.
#[verifier::external_body]
pub(crate) fn codec_decode(wire: &Bytes) -> (r: Result<Frame, nwd1::DecodeError>)
    requires
        decode_defined(bytes_contents(*wire)),
    ensures
        match r {
            Ok(frame) => wire_decoded(bytes_contents(*wire)) == Some(frame@),
            Err(_) => wire_decoded(bytes_contents(*wire)).is_none(),
        },
{
    match nwd1::decode(wire) {
        Ok(f) => Ok(Frame { id: f.id.raw(), kind: f.kind, ver: f.ver, payload: f.payload.to_vec() }),
        Err(e) => Err(e),
    }
}

} // verus!
