//! Sending and receiving whole frames on an in-memory stream, and what holds
//! of every such exchange.

use crate::codec::codec_encode;
use crate::frame::{
    body_decoded,
    frame_body,
    frame_wire,
    lemma_body_round_trip,
    lemma_frame_body_len,
    lemma_wire_header,
    Frame,
    FrameView,
    FIXED_FIELDS_LEN,
};
use crate::reader::{
    header_refusal,
    lemma_wire_of_parts,
    FrameReader,
    RecvError,
    RecvResult,
    Step,
};
use crate::stream::{MemoryStream, StreamReset, StreamView};
use crate::wire::{declared_len, has_magic, header_verdict, magic, HEADER_LEN, MAX_FRAME_LEN};
use vstd::prelude::*;

verus! {

/// The result of a receive, with the frame as a mathematical value.
pub type Received = Result<Option<FrameView>, RecvError<StreamReset>>;

/// A result of `recv_frame` as a mathematical value.
pub open spec fn result_view(r: RecvResult<StreamReset>) -> Received {
    match r {
        Ok(Some(frame)) => Ok(Some(frame@)),
        Ok(None) => Ok(None),
        Err(e) => Err(e),
    }
}

/// What a read yields that finds fewer bytes than it asks for: the failure of
/// a stream that was reset; else the clean end where no byte of a frame was
/// read yet, and a truncated frame anywhere else.
pub open spec fn ran_short(reset: Option<u64>, at_frame_start: bool) -> Received {
    match reset {
        Some(code) => Err(RecvError::Transport(StreamReset { code })),
        None => if at_frame_start {
            Ok(None)
        } else {
            Err(RecvError::TruncatedFrame)
        },
    }
}

/// What receiving one frame from the stream `s` yields.
pub open spec fn received(s: StreamView) -> Received {
    if s.unread.len() < HEADER_LEN {
        ran_short(s.reset, s.unread.len() == 0)
    } else {
        match header_verdict(s.unread.subrange(0, 8)) {
            Err(e) => Err(header_refusal(e)),
            Ok(len) => if s.unread.len() - HEADER_LEN < len {
                ran_short(s.reset, false)
            } else {
                match body_decoded(s.unread.subrange(8, 8 + len as int)) {
                    Some(f) => Ok(Some(f)),
                    None => Err(RecvError::DecodeFailed),
                }
            },
        }
    }
}

/// How many bytes receiving one frame from `s` takes off the stream: the
/// header and then the body as far as each is asked for, where a read that a
/// reset fails takes nothing and a read that the clean end cuts short takes
/// what was left.
pub open spec fn consumed(s: StreamView) -> nat {
    if s.unread.len() < HEADER_LEN {
        if s.reset.is_some() {
            0
        } else {
            s.unread.len()
        }
    } else {
        match header_verdict(s.unread.subrange(0, 8)) {
            Err(_) => HEADER_LEN as nat,
            Ok(len) => if s.unread.len() - HEADER_LEN < len {
                if s.reset.is_some() {
                    HEADER_LEN as nat
                } else {
                    s.unread.len()
                }
            } else {
                HEADER_LEN as nat + len
            },
        }
    }
}

/// The stream `s` after one frame was received from it.
pub open spec fn after_receive(s: StreamView) -> StreamView {
    StreamView { unread: s.unread.skip(consumed(s) as int), reset: s.reset }
}

/// Encodes `frame` into the bytes that go on the stream: header, then body.
/// The length is not held against `MAX_FRAME_LEN`: only the reader does that.
pub fn encode_frame(frame: &Frame) -> (wire: Vec<u8>)
    requires
        frame.payload@.len() + HEADER_LEN + FIXED_FIELDS_LEN <= isize::MAX,
    ensures
        wire@ == frame_wire(frame@),
        wire@.len() == HEADER_LEN + FIXED_FIELDS_LEN + frame.payload@.len(),
        has_magic(wire@),
        within_limit(frame@) ==> received(StreamView { unread: wire@, reset: None }) == Ok::<
            Option<FrameView>,
            RecvError<StreamReset>,
        >(Some(frame@)),
{
    let wire = codec_encode(frame);
    proof {
        lemma_frame_body_len(frame@);
        assert(wire@.subrange(0, 4) =~= magic());
        if within_limit(frame@) {
            assert(wire@ + Seq::<u8>::empty() =~= wire@);
            lemma_receive_sent(frame@, Seq::empty(), None);
        }
    }
    wire
}

/// Sends one frame: its encoding is written to the stream in one piece, and the
/// stream stays open. A failed write is handed on as it came.
pub fn send_frame(stream: &mut MemoryStream, frame: &Frame) -> (r: Result<(), StreamReset>)
    requires
        frame.payload@.len() + HEADER_LEN + FIXED_FIELDS_LEN <= isize::MAX,
    ensures
        match old(stream)@.reset {
            Some(code) => r == Err::<(), StreamReset>(StreamReset { code }) && final(stream)@
                == old(stream)@,
            None => r.is_ok() && final(stream)@ == (StreamView {
                unread: old(stream)@.unread + frame_wire(frame@),
                reset: None,
            }),
        },
{
    let data = encode_frame(frame);
    stream.write_all(data.as_slice())
}

/// Receives one frame: reads the header, judges it, reads the body it
/// declares and decodes both. `Ok(None)` is the clean end of the stream before
/// any byte of a frame.
pub fn recv_frame(stream: &mut MemoryStream) -> (r: RecvResult<StreamReset>)
    ensures
        result_view(r) == received(old(stream)@),
        final(stream)@ == after_receive(old(stream)@),
{
    let mut reader = FrameReader::new();
    loop
        invariant
            match reader.pending() {
                None => stream@ == old(stream)@,
                Some(header) => {
                    &&& old(stream)@.unread.len() >= HEADER_LEN
                    &&& header == old(stream)@.unread.subrange(0, 8)
                    &&& header_verdict(header) is Ok
                    &&& stream@ == (StreamView {
                        unread: old(stream)@.unread.skip(8),
                        reset: old(stream)@.reset,
                    })
                },
            },
        decreases
            if reader.pending().is_none() {
                1nat
            } else {
                0nat
            },
    {
        let ghost before = stream@;
        let ghost pending = reader.pending();
        let n = reader.wants();
        let outcome = stream.read_exact(n);
        proof {
            if pending is Some {
                let header = pending->0;
                let all = old(stream)@.unread;
                if n <= before.unread.len() {
                    let body = before.unread.subrange(0, n as int);
                    assert(body =~= all.subrange(8, 8 + n));
                    lemma_wire_of_parts(header, body);
                    assert(before.unread.skip(n as int) =~= all.skip(8 + n));
                } else {
                    assert(Seq::<u8>::empty() =~= all.skip(all.len() as int));
                }
            } else {
                let all = before.unread;
                if all.len() < HEADER_LEN {
                    assert(Seq::<u8>::empty() =~= all.skip(all.len() as int));
                    assert(all =~= all.skip(0));
                }
            }
        }
        match reader.on_read(outcome) {
            Step::Read(next) => {
                reader = next;
            },
            Step::Done(r) => {
                return r;
            },
        }
    }
}

/// The body of `f` is within what a reader accepts.
pub open spec fn within_limit(f: FrameView) -> bool {
    FIXED_FIELDS_LEN + f.payload.len() <= MAX_FRAME_LEN
}

/// The encodings of `frames`, one behind the other with nothing between them.
pub open spec fn wire_of_all(frames: Seq<FrameView>) -> Seq<u8>
    decreases frames.len(),
{
    if frames.len() == 0 {
        Seq::empty()
    } else {
        frame_wire(frames.first()) + wire_of_all(frames.drop_first())
    }
}

/// The frames that repeated receives from `s` yield, up to the first receive
/// that yields no frame.
pub open spec fn frames_received(s: StreamView) -> Seq<FrameView>
    decreases s.unread.len(),
{
    match received(s) {
        Ok(Some(f)) => seq![f] + frames_received(after_receive(s)),
        _ => Seq::empty(),
    }
}

/// The result of the first of the repeated receives from `s` that yields no
/// frame.
pub open spec fn closing_result(s: StreamView) -> Received
    decreases s.unread.len(),
{
    match received(s) {
        Ok(Some(f)) => closing_result(after_receive(s)),
        r => r,
    }
}

/// A header that does not start with the magic bytes ends the receive with
/// `BadMagic`, whatever length it declares and whatever follows it; only the
/// 8 bytes of the header are taken off the stream.
pub proof fn lemma_bad_magic(s: StreamView)
    requires
        s.unread.len() >= HEADER_LEN,
        s.unread.subrange(0, 4) != magic(),
    ensures
        received(s) == Err::<Option<FrameView>, RecvError<StreamReset>>(RecvError::BadMagic),
        consumed(s) == HEADER_LEN,
{
    assert(s.unread.subrange(0, 8).subrange(0, 4) =~= s.unread.subrange(0, 4));
}

/// A header with the magic bytes that declares more than `MAX_FRAME_LEN` ends
/// the receive with `FrameTooLarge`; only the 8 bytes of the header are taken
/// off the stream.
pub proof fn lemma_frame_too_large(s: StreamView)
    requires
        s.unread.len() >= HEADER_LEN,
        has_magic(s.unread),
        declared_len(s.unread) > MAX_FRAME_LEN,
    ensures
        received(s) == Err::<Option<FrameView>, RecvError<StreamReset>>(
            RecvError::FrameTooLarge,
        ),
        consumed(s) == HEADER_LEN,
{
    assert(s.unread.subrange(0, 8).subrange(0, 4) =~= s.unread.subrange(0, 4));
    assert(s.unread.subrange(0, 8).subrange(4, 8) =~= s.unread.subrange(4, 8));
}

/// A stream that has ended cleanly with nothing unread yields the clean end,
/// not an error.
pub proof fn lemma_clean_end(s: StreamView)
    requires
        s.unread.len() == 0,
        s.reset.is_none(),
    ensures
        received(s) == Ok::<Option<FrameView>, RecvError<StreamReset>>(None),
        consumed(s) == 0,
{
}

/// A stream that ends cleanly after 1 to 7 bytes of a header yields
/// `TruncatedFrame`.
pub proof fn lemma_truncated_header(s: StreamView)
    requires
        1 <= s.unread.len() < HEADER_LEN,
        s.reset.is_none(),
    ensures
        received(s) == Err::<Option<FrameView>, RecvError<StreamReset>>(
            RecvError::TruncatedFrame,
        ),
        consumed(s) == s.unread.len(),
{
}

/// A stream that ends cleanly behind an accepted header, before the body that
/// the header declares is complete, yields `TruncatedFrame`, never the clean end.
pub proof fn lemma_truncated_body(s: StreamView)
    requires
        s.unread.len() >= HEADER_LEN,
        has_magic(s.unread),
        declared_len(s.unread) <= MAX_FRAME_LEN,
        s.unread.len() - HEADER_LEN < declared_len(s.unread),
        s.reset.is_none(),
    ensures
        received(s) == Err::<Option<FrameView>, RecvError<StreamReset>>(
            RecvError::TruncatedFrame,
        ),
        consumed(s) == s.unread.len(),
{
    assert(s.unread.subrange(0, 8).subrange(0, 4) =~= s.unread.subrange(0, 4));
    assert(s.unread.subrange(0, 8).subrange(4, 8) =~= s.unread.subrange(4, 8));
}

/// A whole frame behind an accepted header is received or refused by its
/// body alone, and header and body are taken off the stream, so that the next
/// receive starts at the next frame.
pub proof fn lemma_whole_frame(s: StreamView)
    requires
        s.unread.len() >= HEADER_LEN,
        has_magic(s.unread),
        declared_len(s.unread) <= MAX_FRAME_LEN,
        s.unread.len() - HEADER_LEN >= declared_len(s.unread),
    ensures
        received(s) == match body_decoded(
            s.unread.subrange(8, 8 + declared_len(s.unread) as int),
        ) {
            Some(f) => Ok::<Option<FrameView>, RecvError<StreamReset>>(Some(f)),
            None => Err::<Option<FrameView>, RecvError<StreamReset>>(RecvError::DecodeFailed),
        },
        body_decoded(s.unread.subrange(8, 8 + declared_len(s.unread) as int)).is_none()
            <==> declared_len(s.unread) < FIXED_FIELDS_LEN,
        consumed(s) == HEADER_LEN + declared_len(s.unread),
{
    assert(s.unread.subrange(0, 8).subrange(0, 4) =~= s.unread.subrange(0, 4));
    assert(s.unread.subrange(0, 8).subrange(4, 8) =~= s.unread.subrange(4, 8));
}

/// What was sent is received: a stream that starts with the encoding of a
/// frame within the limit yields that frame, whatever follows, and is left
/// with what follows.
pub proof fn lemma_receive_sent(f: FrameView, rest: Seq<u8>, reset: Option<u64>)
    requires
        within_limit(f),
    ensures
        received(StreamView { unread: frame_wire(f) + rest, reset }) == Ok::<
            Option<FrameView>,
            RecvError<StreamReset>,
        >(Some(f)),
        consumed(StreamView { unread: frame_wire(f) + rest, reset }) == frame_wire(f).len(),
        after_receive(StreamView { unread: frame_wire(f) + rest, reset }) == (StreamView {
            unread: rest,
            reset,
        }),
{
    let wire = frame_wire(f);
    let s = StreamView { unread: wire + rest, reset };
    lemma_wire_header(f);
    lemma_frame_body_len(f);
    lemma_body_round_trip(f);
    assert(s.unread.subrange(0, 4) =~= wire.subrange(0, 4));
    assert(s.unread.subrange(4, 8) =~= wire.subrange(4, 8));
    assert(s.unread.subrange(8, 8 + frame_body(f).len() as int) =~= frame_body(f));
    lemma_whole_frame(s);
    assert(s.unread.skip(wire.len() as int) =~= rest);
}

/// Frames sent back to back on a stream are received one by one, each whole
/// and in order, and the receive after the last one reports how the stream
/// ended: the clean end where it was closed, the failure where it was reset.
pub proof fn lemma_back_to_back(frames: Seq<FrameView>, reset: Option<u64>)
    requires
        forall|i: int| 0 <= i < frames.len() ==> within_limit(#[trigger] frames[i]),
    ensures
        frames_received(StreamView { unread: wire_of_all(frames), reset }) == frames,
        closing_result(StreamView { unread: wire_of_all(frames), reset }) == ran_short(
            reset,
            true,
        ),
    decreases frames.len(),
{
    let s = StreamView { unread: wire_of_all(frames), reset };
    if frames.len() == 0 {
    } else {
        let first = frames.first();
        let others = frames.drop_first();
        assert(within_limit(frames[0]));
        assert forall|i: int| 0 <= i < others.len() implies within_limit(
            #[trigger] others[i],
        ) by {
            assert(others[i] == frames[i + 1]);
        }
        lemma_receive_sent(first, wire_of_all(others), reset);
        lemma_back_to_back(others, reset);
        assert(seq![first] + others =~= frames);
    }
}


} // verus!
