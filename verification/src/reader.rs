//! The reader's state machine: one frame out of the results of exact reads.
//!
//! The reader never touches a stream. It says how many bytes it wants next,
//! is told how that read went, and answers with the next read or the outcome.

use crate::codec::{
    bytes_contents,
    buffer_extend,
    buffer_freeze,
    buffer_with_capacity,
    codec_decode,
};
use crate::frame::{body_decoded, holds_whole_frame, wire_decoded, Frame, FIXED_FIELDS_LEN};
use crate::wire::{
    declared_len,
    has_magic,
    header_verdict,
    parse_header,
    HeaderError,
    HEADER_LEN,
    MAX_FRAME_LEN,
};
use vstd::prelude::*;

verus! {

/// How a request for exactly `n` bytes went.
#[derive(Debug)]
pub enum ReadOutcome<E> {
    /// All `n` bytes arrived; here they are.
    Delivered(Vec<u8>),
    /// The stream was closed cleanly after this many bytes, fewer than `n`.
    EndedEarly(usize),
    /// The transport failed.
    Failed(E),
}

/// Why no frame was received.
#[derive(Debug, PartialEq, Eq)]
pub enum RecvError<E> {
    /// The transport failed; its error is handed on as it came.
    Transport(E),
    /// The header does not start with the magic bytes.
    BadMagic,
    /// The header declares a body longer than `MAX_FRAME_LEN`.
    FrameTooLarge,
    /// The stream ended inside a header, or before the promised body was complete.
    TruncatedFrame,
    /// Header and body arrived whole, and the body is no frame.
    DecodeFailed,
}

/// What a call to `recv_frame` yields: a frame, `None` for a stream that ended
/// between two frames, or an error.
pub type RecvResult<E> = Result<Option<Frame>, RecvError<E>>;

/// The error that a refused header leads to.
pub open spec fn header_refusal<E>(e: HeaderError) -> RecvError<E> {
    match e {
        HeaderError::BadMagic => RecvError::BadMagic,
        HeaderError::FrameTooLarge => RecvError::FrameTooLarge,
    }
}

#[derive(Debug)]
enum ReaderState {
    AwaitHeader,
    AwaitBody { header: [u8; 8], len: usize },
}

/// Where the reading of one frame stands.
#[derive(Debug)]
pub struct FrameReader {
    state: ReaderState,
}

/// What the reader does after a read.
#[derive(Debug)]
pub enum Step<E> {
    /// Read again, as many bytes as the reader now wants.
    Read(FrameReader),
    /// The call is over, with this result.
    Done(RecvResult<E>),
}

impl FrameReader {
    #[verifier::type_invariant]
    spec fn accepted_header(self) -> bool {
        match self.state {
            ReaderState::AwaitHeader => true,
            ReaderState::AwaitBody { header, len } => header_verdict(header@) == Ok::<
                nat,
                HeaderError,
            >(len as nat),
        }
    }

    /// The header whose body is awaited; none while the header itself is.
    pub closed spec fn pending(self) -> Option<Seq<u8>> {
        match self.state {
            ReaderState::AwaitHeader => None,
            ReaderState::AwaitBody { header, .. } => Some(header@),
        }
    }

    /// The number of bytes of the next read: a header, or the declared body.
    pub open spec fn wanted(self) -> nat {
        match self.pending() {
            None => HEADER_LEN as nat,
            Some(header) => declared_len(header),
        }
    }

    /// A reader at the start of a frame.
    pub fn new() -> (reader: FrameReader)
        ensures
            reader.pending().is_none(),
    {
        FrameReader { state: ReaderState::AwaitHeader }
    }

    /// The number of bytes to ask the stream for.
    pub fn wants(&self) -> (n: usize)
        ensures
            n == self.wanted(),
            n <= MAX_FRAME_LEN,
            self.pending() matches Some(header) ==> header_verdict(header) == Ok::<
                nat,
                HeaderError,
            >(n as nat),
    {
        proof {
            use_type_invariant(self);
        }
        match self.state {
            ReaderState::AwaitHeader => HEADER_LEN,
            ReaderState::AwaitBody { len, .. } => len,
        }
    }

    /// Takes the result of the read that `wants` asked for.
    ///
    /// A transport failure ends the call with that failure. A clean end with no
    /// byte of a header ends it with `Ok(None)`; any other early end is a
    /// truncated frame. A delivered header is judged, magic first, and a refused
    /// one ends the call before any body is asked for. A delivered body is
    /// decoded together with its header.
    pub fn on_read<E>(self, outcome: ReadOutcome<E>) -> (step: Step<E>)
        requires
            outcome matches ReadOutcome::Delivered(bytes) ==> bytes@.len() == self.wanted(),
        ensures
            match outcome {
                ReadOutcome::Failed(e) => step matches Step::Done(r) && r == Err::<
                    Option<Frame>,
                    RecvError<E>,
                >(RecvError::Transport(e)),
                ReadOutcome::EndedEarly(k) => step matches Step::Done(r) && r == if k == 0
                    && self.pending().is_none() {
                    Ok::<Option<Frame>, RecvError<E>>(None)
                } else {
                    Err::<Option<Frame>, RecvError<E>>(RecvError::TruncatedFrame)
                },
                ReadOutcome::Delivered(bytes) => match self.pending() {
                    None => match header_verdict(bytes@) {
                        Ok(len) => step matches Step::Read(next) && next.pending() == Some(
                            bytes@,
                        ),
                        Err(e) => step matches Step::Done(r) && r == Err::<
                            Option<Frame>,
                            RecvError<E>,
                        >(header_refusal(e)),
                    },
                    Some(header) => match wire_decoded(header + bytes@) {
                        Some(f) => step matches Step::Done(Ok(Some(frame))) && frame@ == f,
                        None => step matches Step::Done(r) && r == Err::<
                            Option<Frame>,
                            RecvError<E>,
                        >(RecvError::DecodeFailed),
                    },
                },
            },
    {
        proof {
            use_type_invariant(&self);
        }
        match outcome {
            ReadOutcome::Failed(e) => Step::Done(Err(RecvError::Transport(e))),
            ReadOutcome::EndedEarly(k) => {
                match self.state {
                    ReaderState::AwaitHeader => {
                        if k == 0 {
                            Step::Done(Ok(None))
                        } else {
                            Step::Done(Err(RecvError::TruncatedFrame))
                        }
                    },
                    ReaderState::AwaitBody { .. } => Step::Done(Err(RecvError::TruncatedFrame)),
                }
            },
            ReadOutcome::Delivered(bytes) => {
                match self.state {
                    ReaderState::AwaitHeader => {
                        let header: [u8; 8] = [
                            bytes[0],
                            bytes[1],
                            bytes[2],
                            bytes[3],
                            bytes[4],
                            bytes[5],
                            bytes[6],
                            bytes[7],
                        ];
                        assert(header@ =~= bytes@);
                        match parse_header(&header) {
                            Err(HeaderError::BadMagic) => Step::Done(Err(RecvError::BadMagic)),
                            Err(HeaderError::FrameTooLarge) => Step::Done(
                                Err(RecvError::FrameTooLarge),
                            ),
                            Ok(len) => Step::Read(
                                FrameReader { state: ReaderState::AwaitBody { header, len } },
                            ),
                        }
                    },
                    ReaderState::AwaitBody { header, len } => {
                        proof {
                            lemma_wire_of_parts(header@, bytes@);
                        }
                        if len < FIXED_FIELDS_LEN {
                            Step::Done(Err(RecvError::DecodeFailed))
                        } else {
                            let mut buffer = buffer_with_capacity(HEADER_LEN + len);
                            buffer_extend(&mut buffer, header.as_slice());
                            buffer_extend(&mut buffer, bytes.as_slice());
                            let wire = buffer_freeze(buffer);
                            assert(bytes_contents(wire) =~= header@ + bytes@);
                            match codec_decode(&wire) {
                                Ok(frame) => Step::Done(Ok(Some(frame))),
                                Err(_) => Step::Done(Err(RecvError::DecodeFailed)),
                            }
                        }
                    },
                }
            },
        }
    }
}

/// A header with the magic bytes, followed by exactly the body it declares,
/// holds a whole frame, and decodes as that body does.
pub proof fn lemma_wire_of_parts(header: Seq<u8>, body: Seq<u8>)
    requires
        header.len() == 8,
        has_magic(header),
        declared_len(header) == body.len(),
    ensures
        holds_whole_frame(header + body),
        declared_len(header + body) == body.len(),
        wire_decoded(header + body) == body_decoded(body),
{
    let wire = header + body;
    assert(wire.subrange(0, 4) =~= header.subrange(0, 4));
    assert(wire.subrange(4, 8) =~= header.subrange(4, 8));
    assert(wire.subrange(8, 8 + body.len() as int) =~= body);
}

} // verus!
