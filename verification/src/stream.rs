//! An ordered byte stream held in memory, and frames sent and received on it.
//!
//! The stream stands for one direction of a transport: what was written is
//! read back in order, and once the written bytes run out the stream has ended,
//! cleanly or, where it was reset, with a failure.

use crate::reader::ReadOutcome;
use vstd::prelude::*;

verus! {

/// The failure of a stream that was reset, with the code it was reset with.
#[derive(Clone, Copy, Debug, PartialEq, Eq, Structural)]
pub struct StreamReset {
    pub code: u64,
}

/// A stream as a mathematical value.
pub struct StreamView {
    /// The bytes written and not yet read, oldest first.
    pub unread: Seq<u8>,
    /// The code of the reset that ended the stream; none where it ends cleanly.
    pub reset: Option<u64>,
}

/// A byte stream in memory.
#[derive(Debug)]
pub struct MemoryStream {
    unread: Vec<u8>,
    reset: Option<u64>,
}

impl View for MemoryStream {
    type V = StreamView;

    closed spec fn view(&self) -> StreamView {
        StreamView { unread: self.unread@, reset: self.reset }
    }
}

impl MemoryStream {
    /// A stream on which nothing was written yet.
    pub fn new() -> (stream: MemoryStream)
        ensures
            stream@ == (StreamView { unread: Seq::empty(), reset: None }),
    {
        MemoryStream { unread: Vec::new(), reset: None }
    }

    /// A stream that delivers `data` and then ends cleanly.
    pub fn from_bytes(data: Vec<u8>) -> (stream: MemoryStream)
        ensures
            stream@ == (StreamView { unread: data@, reset: None }),
    {
        MemoryStream { unread: data, reset: None }
    }

    /// Resets the stream: what is unread so far stays readable, and every read
    /// beyond it and every write fail with `code`.
    pub fn reset(&mut self, code: u64)
        ensures
            final(self)@ == (StreamView { unread: old(self)@.unread, reset: Some(code) }),
    {
        self.reset = Some(code);
    }

    /// The number of bytes written and not yet read.
    pub fn unread_len(&self) -> (n: usize)
        ensures
            n == self@.unread.len(),
    {
        self.unread.len()
    }

    /// Writes all of `bytes` behind what the stream holds. A stream that was
    /// reset takes nothing and fails.
    pub fn write_all(&mut self, bytes: &[u8]) -> (r: Result<(), StreamReset>)
        ensures
            match old(self)@.reset {
                Some(code) => r == Err::<(), StreamReset>(StreamReset { code }) && final(self)@
                    == old(self)@,
                None => r.is_ok() && final(self)@ == (StreamView {
                    unread: old(self)@.unread + bytes@,
                    reset: None,
                }),
            },
    {
        match self.reset {
            Some(code) => Err(StreamReset { code }),
            None => {
                self.unread.extend_from_slice(bytes);
                assert(self.unread@ =~= old(self).unread@ + bytes@);
                Ok(())
            },
        }
    }

    /// Reads exactly `n` bytes. With fewer than `n` unread, a stream that was
    /// reset fails and keeps them, and any other has ended: it reports how many
    /// there were and is left empty.
    pub fn read_exact(&mut self, n: usize) -> (outcome: ReadOutcome<StreamReset>)
        ensures
            match outcome {
                ReadOutcome::Delivered(bytes) => {
                    &&& n <= old(self)@.unread.len()
                    &&& bytes@ == old(self)@.unread.subrange(0, n as int)
                    &&& final(self)@ == (StreamView {
                        unread: old(self)@.unread.skip(n as int),
                        reset: old(self)@.reset,
                    })
                },
                ReadOutcome::EndedEarly(k) => {
                    &&& k < n
                    &&& k == old(self)@.unread.len()
                    &&& old(self)@.reset.is_none()
                    &&& final(self)@ == (StreamView { unread: Seq::empty(), reset: None })
                },
                ReadOutcome::Failed(e) => {
                    &&& old(self)@.unread.len() < n
                    &&& old(self)@.reset == Some(e.code)
                    &&& final(self)@ == old(self)@
                },
            },
    {
        let unread: usize = self.unread.len();
        if n <= unread {
            let mut bytes = self.unread.split_off(n);
            core::mem::swap(&mut self.unread, &mut bytes);
            assert(self.unread@ =~= old(self).unread@.skip(n as int));
            ReadOutcome::Delivered(bytes)
        } else {
            match self.reset {
                Some(code) => ReadOutcome::Failed(StreamReset { code }),
                None => {
                    self.unread.clear();
                    ReadOutcome::EndedEarly(unread)
                },
            }
        }
    }
}

} // verus!
