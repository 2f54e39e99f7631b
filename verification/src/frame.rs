//! The frame and the bytes that stand for it on the wire.
//!
//! A frame body is the identifier (8 bytes, big-endian), the kind (1 byte), the
//! version (8 bytes, big-endian) and then the payload. The header in front of it
//! declares the length of the whole body.

use crate::endian::{
    be_bytes,
    be_value,
    lemma_be_bytes_len,
    lemma_be_value_of_bytes,
    lemma_radix_values,
};
use crate::wire::{declared_len, has_magic, magic};
use vstd::prelude::*;

verus! {

/// Length of the fields that every body starts with, before the payload.
pub const FIXED_FIELDS_LEN: usize = 17;

/// One message: who it is about, what it is, and opaque payload bytes.
#[derive(Clone, Debug, PartialEq, Eq)]
pub struct Frame {
    /// 64-bit network identifier, as its raw value.
    pub id: u64,
    /// Application-defined kind tag.
    pub kind: u8,
    /// Protocol or schema version.
    pub ver: u64,
    /// Payload, carried unchanged.
    pub payload: Vec<u8>,
}

/// A frame as a mathematical value.
pub struct FrameView {
    pub id: u64,
    pub kind: u8,
    pub ver: u64,
    pub payload: Seq<u8>,
}

impl View for Frame {
    type V = FrameView;

    open spec fn view(&self) -> FrameView {
        FrameView { id: self.id, kind: self.kind, ver: self.ver, payload: self.payload@ }
    }
}

/// The body of `f`: fixed fields, then the payload.
pub open spec fn frame_body(f: FrameView) -> Seq<u8> {
    be_bytes(f.id as nat, 8) + seq![f.kind] + be_bytes(f.ver as nat, 8) + f.payload
}

/// All the bytes of `f` on the wire: magic, body length, body. The length
/// field holds the low 32 bits of the body's length.
pub open spec fn frame_wire(f: FrameView) -> Seq<u8> {
    magic() + be_bytes(frame_body(f).len(), 4) + frame_body(f)
}

/// The length field of `f`'s header says how long its body is.
pub open spec fn length_fits(f: FrameView) -> bool {
    FIXED_FIELDS_LEN + f.payload.len() <= u32::MAX
}

/// The frame that a body stands for; none where the fixed fields are incomplete.
pub open spec fn body_decoded(body: Seq<u8>) -> Option<FrameView> {
    if body.len() < FIXED_FIELDS_LEN {
        None
    } else {
        Some(
            FrameView {
                id: be_value(body.subrange(0, 8)) as u64,
                kind: body[8],
                ver: be_value(body.subrange(9, 17)) as u64,
                payload: body.skip(17),
            },
        )
    }
}

/// `wire` starts with a header that has the magic bytes, and holds at least the
/// body that the header declares.
pub open spec fn holds_whole_frame(wire: Seq<u8>) -> bool {
    &&& wire.len() >= 8
    &&& has_magic(wire)
    &&& wire.len() - 8 >= declared_len(wire)
}

/// The frame that `wire` starts with: header first, then the declared body.
/// Bytes after the body are not looked at.
pub open spec fn wire_decoded(wire: Seq<u8>) -> Option<FrameView> {
    if holds_whole_frame(wire) {
        body_decoded(wire.subrange(8, 8 + declared_len(wire) as int))
    } else {
        None
    }
}

/// The body of a frame is the 17 bytes of fixed fields and the payload.
pub proof fn lemma_frame_body_len(f: FrameView)
    ensures
        frame_body(f).len() == FIXED_FIELDS_LEN + f.payload.len(),
        frame_wire(f).len() == 8 + FIXED_FIELDS_LEN + f.payload.len(),
{
    lemma_be_bytes_len(f.id as nat, 8);
    lemma_be_bytes_len(f.ver as nat, 8);
    lemma_be_bytes_len(frame_body(f).len(), 4);
}

/// A body decodes to the frame it was made from.
pub proof fn lemma_body_round_trip(f: FrameView)
    ensures
        body_decoded(frame_body(f)) == Some(f),
{
    let body = frame_body(f);
    lemma_frame_body_len(f);
    lemma_be_bytes_len(f.id as nat, 8);
    lemma_be_bytes_len(f.ver as nat, 8);
    lemma_radix_values();
    lemma_be_value_of_bytes(f.id as nat, 8);
    lemma_be_value_of_bytes(f.ver as nat, 8);
    assert(body.subrange(0, 8) =~= be_bytes(f.id as nat, 8));
    assert(body[8] == f.kind);
    assert(body.subrange(9, 17) =~= be_bytes(f.ver as nat, 8));
    assert(body.skip(17) =~= f.payload);
}

/// The header of an encoded frame carries the magic bytes and, where the
/// length fits in 32 bits, the length of the body.
pub proof fn lemma_wire_header(f: FrameView)
    requires
        length_fits(f),
    ensures
        frame_wire(f).len() == 8 + frame_body(f).len(),
        has_magic(frame_wire(f)),
        declared_len(frame_wire(f)) == frame_body(f).len(),
        frame_wire(f).subrange(8, 8 + frame_body(f).len() as int) == frame_body(f),
        holds_whole_frame(frame_wire(f)),
{
    let body = frame_body(f);
    let wire = frame_wire(f);
    lemma_frame_body_len(f);
    lemma_be_bytes_len(body.len(), 4);
    lemma_radix_values();
    lemma_be_value_of_bytes(body.len(), 4);
    assert(wire.subrange(0, 4) =~= magic());
    assert(wire.subrange(4, 8) =~= be_bytes(body.len(), 4));
    assert(wire.subrange(8, 8 + body.len() as int) =~= body);
}

/// Decoding the encoding of a frame gives the frame back: identifier, kind,
/// version and payload.
pub proof fn lemma_round_trip(f: FrameView)
    requires
        length_fits(f),
    ensures
        wire_decoded(frame_wire(f)) == Some(f),
{
    lemma_wire_header(f);
    lemma_body_round_trip(f);
}

} // verus!
