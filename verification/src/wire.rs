//! The frame header: four magic bytes, then the body length as a big-endian `u32`.

use crate::endian::{be_value, lemma_be_value_4};
use vstd::prelude::*;

verus! {

/// Size of the header in front of every frame body.
pub const HEADER_LEN: usize = 8;

/// Largest body length that a reader accepts: 8 MiB.
pub const MAX_FRAME_LEN: usize = 8 * 1024 * 1024;

/// The bytes `NWD1`, which open every header.
pub const MAGIC: [u8; 4] = [0x4E, 0x57, 0x44, 0x31];

/// Why a header is turned down.
#[derive(Clone, Copy, Debug, PartialEq, Eq, Structural)]
pub enum HeaderError {
    /// The header does not start with the magic bytes.
    BadMagic,
    /// The header declares a body longer than `MAX_FRAME_LEN`.
    FrameTooLarge,
}

/// The magic bytes as a sequence.
pub open spec fn magic() -> Seq<u8> {
    seq![0x4Eu8, 0x57u8, 0x44u8, 0x31u8]
}

/// `header` starts with the magic bytes.
pub open spec fn has_magic(header: Seq<u8>) -> bool {
    header.len() >= 4 && header.subrange(0, 4) == magic()
}

/// The body length that the bytes 4 to 7 of `header` declare.
pub open spec fn declared_len(header: Seq<u8>) -> nat
    recommends
        header.len() >= 8,
{
    be_value(header.subrange(4, 8))
}

/// The verdict on an 8-byte header: the magic is judged before the length.
pub open spec fn header_verdict(header: Seq<u8>) -> Result<nat, HeaderError>
    recommends
        header.len() == 8,
{
    if !has_magic(header) {
        Err(HeaderError::BadMagic)
    } else if declared_len(header) > MAX_FRAME_LEN {
        Err(HeaderError::FrameTooLarge)
    } else {
        Ok(declared_len(header))
    }
}

/// Validates a header and returns the length of the body that follows it.
pub fn parse_header(header: &[u8; 8]) -> (r: Result<usize, HeaderError>)
    ensures
        match r {
            Ok(len) => header_verdict(header@) == Ok::<nat, HeaderError>(len as nat),
            Err(e) => header_verdict(header@) == Err::<nat, HeaderError>(e),
        },
{
    if header[0] != MAGIC[0] || header[1] != MAGIC[1] || header[2] != MAGIC[2] || header[3]
        != MAGIC[3] {
        assert(header@.subrange(0, 4)[0] == header@[0]);
        assert(header@.subrange(0, 4)[1] == header@[1]);
        assert(header@.subrange(0, 4)[2] == header@[2]);
        assert(header@.subrange(0, 4)[3] == header@[3]);
        return Err(HeaderError::BadMagic);
    }
    assert(header@.subrange(0, 4) =~= magic());
    let len: u32 = (header[4] as u32) * 0x100_0000 + (header[5] as u32) * 0x1_0000 + (
    header[6] as u32) * 0x100 + (header[7] as u32);
    proof {
        lemma_be_value_4(header@.subrange(4, 8));
    }
    if len as usize > MAX_FRAME_LEN {
        return Err(HeaderError::FrameTooLarge);
    }
    Ok(len as usize)
}

} // verus!
